//! A run's decisions: which candidate files make up the document, how it is
//! rendered, and where it goes.

use crate::cli::{output_file_of, pattern_list, Cli};
use crate::error::FlattenError;
use crate::ignore_handler::{included, is_text, IgnoreHandler};
use crate::output::{format_named, full_document, is_tree_document, lemma_tree_document_unique, reads_view, FormatType, OutputFormatter};
use crate::text::{lemma_filter_permutation, lemma_text_sorted_unique, opt_text, sort_texts, text_sorted, texts};
use vstd::prelude::*;

verus! {

/// Where the rendered document goes.
#[derive(Debug)]
pub enum OutputTarget {
    /// Written to the named file, replacing what was there.
    File(String),
    /// Printed on standard output.
    Stdout,
    /// Copied to the clipboard; printed instead where that fails.
    Clipboard,
}

/// A run: its options, its filters and its formatter.
pub struct FileProcessor {
    cli: Cli,
    ignore_handler: IgnoreHandler,
    output_formatter: OutputFormatter,
}

impl FileProcessor {
    /// The options of the run.
    pub closed spec fn options(&self) -> Cli {
        self.cli
    }

    /// The filters of the run.
    pub closed spec fn handler(&self) -> IgnoreHandler {
        self.ignore_handler
    }

    /// The formatter of the run.
    pub closed spec fn formatter(&self) -> OutputFormatter {
        self.output_formatter
    }

    /// Whether the path takes part in the document: it passes the filters and
    /// names a text file.
    pub open spec fn wanted(&self, path: Seq<char>) -> bool {
        included(self.handler().includes(), self.handler().excludes(), path) && is_text(path)
    }

    /// The run for the options; an unknown output format is a processing error.
    pub fn new(cli: Cli) -> (r: Result<Self, FlattenError>)
        ensures
            format_named(cli.output_format@) is None <==> r is Err,
            r matches Err(e) ==> e is Processing,
            r matches Ok(p) ==> {
                &&& p.options() == cli
                &&& p.handler().includes() == pattern_list(opt_text(cli.include_list))
                &&& p.handler().excludes() == pattern_list(opt_text(cli.exclude_list))
                &&& format_named(cli.output_format@) == Some(p.formatter().format())
            },
    {
        let include_patterns = cli.get_include_patterns();
        let exclude_patterns = cli.get_exclude_patterns();
        let ignore_handler = IgnoreHandler::new(include_patterns, exclude_patterns);
        let output_formatter = match OutputFormatter::new(cli.output_format.as_str()) {
            Ok(f) => f,
            Err(e) => {
                return Err(e);
            },
        };
        Ok(FileProcessor { cli, ignore_handler, output_formatter })
    }

    /// Whether the path takes part in the document.
    pub fn keep(&self, path: &str) -> (r: bool)
        ensures
            r == self.wanted(path@),
    {
        self.ignore_handler.should_include_file(path) && self.ignore_handler.is_text_file(path)
    }

    /// The candidates that take part in the document, sorted by path text.
    pub fn collect_files_from_directory(&self, candidates: &Vec<String>) -> (r: Vec<String>)
        ensures
            collected_from(*self, texts(candidates@), texts(r@)),
    {
        let ghost cs = texts(candidates@);
        let mut files: Vec<String> = Vec::new();
        let mut i: usize = 0;
        while i < candidates.len()
            invariant
                cs == texts(candidates@),
                i <= candidates@.len(),
                texts(files@) =~= cs.take(i as int).filter(|p: Seq<char>| self.wanted(p)),
            decreases candidates@.len() - i,
        {
            let ghost before = files@;
            assert(cs.take(i + 1) =~= cs.take(i as int).push(cs[i as int]));
            proof {
                cs.take(i as int).lemma_filter_push(cs[i as int], |p: Seq<char>| self.wanted(p));
            }
            if self.keep(candidates[i].as_str()) {
                files.push(candidates[i].clone());
                assert(files@ =~= before.push(candidates@[i as int]));
                assert(texts(files@) =~= texts(before).push(cs[i as int]));
            }
            i = i + 1;
        }
        assert(cs.take(candidates@.len() as int) =~= cs);
        sort_texts(&mut files);
        files
    }

    /// The document of the files, given the outcome of reading each; nothing
    /// where there are no files.
    pub fn render(&self, files: &Vec<String>, contents: &Vec<Result<String, String>>) -> (r: Result<Option<String>, FlattenError>)
        requires
            self.formatter().format() == FormatType::Full ==> contents@.len() == files@.len(),
        ensures
            files@.len() == 0 ==> r == Ok::<Option<String>, FlattenError>(None),
            files@.len() > 0 ==> (r matches Ok(Some(doc)) && {
                &&& self.formatter().format() == FormatType::Full ==> doc@ == full_document(texts(files@), reads_view(contents@))
                &&& self.formatter().format() == FormatType::Tree ==> is_tree_document(texts(files@), doc@)
            }),
    {
        if files.len() == 0 {
            return Ok(None);
        }
        match self.output_formatter.format_files(files, contents) {
            Ok(doc) => Ok(Some(doc)),
            Err(e) => Err(e),
        }
    }

    /// Whether the document shows the files' contents, so that they must be read.
    pub fn needs_contents(&self) -> (r: bool)
        ensures
            r == (self.formatter().format() == FormatType::Full),
    {
        self.output_formatter.needs_contents()
    }

    /// Where the document goes: the output file where one is set, else
    /// standard output where printing is asked for, else the clipboard.
    pub fn output_target(&self) -> (r: OutputTarget)
        ensures
            output_file_of(self.options()) matches Some(f) ==> (r matches OutputTarget::File(g) && g@ == f),
            output_file_of(self.options()) is None && self.options().print ==> r is Stdout,
            output_file_of(self.options()) is None && !self.options().print ==> r is Clipboard,
    {
        match self.cli.get_output_file() {
            Some(f) => OutputTarget::File(f),
            None => if self.cli.print {
                OutputTarget::Stdout
            } else {
                OutputTarget::Clipboard
            },
        }
    }
}

/// Whether `files` is what the run collects from `candidates`: the wanted
/// ones, each as many times as found, sorted by path text.
pub open spec fn collected_from(p: FileProcessor, candidates: Seq<Seq<char>>, files: Seq<Seq<char>>) -> bool {
    &&& text_sorted(files)
    &&& files.to_multiset() == candidates.filter(|x: Seq<char>| p.wanted(x)).to_multiset()
}

/// The collected list does not depend on the order in which the candidates
/// were found.
pub proof fn lemma_collected_order_independent(
    p: FileProcessor,
    c1: Seq<Seq<char>>,
    c2: Seq<Seq<char>>,
    f1: Seq<Seq<char>>,
    f2: Seq<Seq<char>>,
)
    requires
        c1.to_multiset() == c2.to_multiset(),
        collected_from(p, c1, f1),
        collected_from(p, c2, f2),
    ensures
        f1 == f2,
{
    lemma_filter_permutation(c1, c2, |x: Seq<char>| p.wanted(x));
    lemma_text_sorted_unique(f1, f2);
}

/// Two runs over the same files, found in any order and read with the same
/// outcomes, render the same full document.
pub proof fn lemma_rerun_same_document(
    p: FileProcessor,
    c1: Seq<Seq<char>>,
    c2: Seq<Seq<char>>,
    f1: Seq<Seq<char>>,
    f2: Seq<Seq<char>>,
    reads: Seq<Result<Seq<char>, Seq<char>>>,
)
    requires
        c1.to_multiset() == c2.to_multiset(),
        collected_from(p, c1, f1),
        collected_from(p, c2, f2),
    ensures
        full_document(f1, reads) == full_document(f2, reads),
{
    lemma_collected_order_independent(p, c1, c2, f1, f2);
}

/// Two runs over the same files, found in any order, render the same tree
/// document.
pub proof fn lemma_rerun_same_tree(
    p: FileProcessor,
    c1: Seq<Seq<char>>,
    c2: Seq<Seq<char>>,
    f1: Seq<Seq<char>>,
    f2: Seq<Seq<char>>,
    d1: Seq<char>,
    d2: Seq<char>,
)
    requires
        c1.to_multiset() == c2.to_multiset(),
        collected_from(p, c1, f1),
        collected_from(p, c2, f2),
        is_tree_document(f1, d1),
        is_tree_document(f2, d2),
    ensures
        d1 == d2,
{
    lemma_collected_order_independent(p, c1, c2, f1, f2);
    lemma_tree_document_unique(f1, d1, d2);
}

} // verus!
