//! Renders a list of files as one document: a tree of directories and file
//! names, or a full listing with a table of contents and each file's text.

use crate::error::FlattenError;
use crate::text::{
    decimal, decimal_text, extension, extension_of, file_name, file_name_of,
    lemma_no_duplicates_count, lemma_text_sorted_unique, lower_of, lowercase, parent, parent_of,
    same_text, sort_texts, text_le, text_sorted, texts,
};
use vstd::prelude::*;

verus! {

/// The two kinds of document.
#[derive(Debug, Clone, Copy, PartialEq, Eq, Structural)]
pub enum FormatType {
    Full,
    Tree,
}

/// The outcome of reading one file: its text, or the message of the failure.
pub open spec fn read_view(r: Result<String, String>) -> Result<Seq<char>, Seq<char>> {
    match r {
        Ok(c) => Ok(c@),
        Err(m) => Err(m@),
    }
}

/// The outcomes of reading a list of files.
pub open spec fn reads_view(v: Seq<Result<String, String>>) -> Seq<Result<Seq<char>, Seq<char>>> {
    v.map_values(|r: Result<String, String>| read_view(r))
}

/// The opening of a full document for `n` files, up to its table of contents.
pub open spec fn full_header(n: nat) -> Seq<char> {
    "# Flattened Codebase\n\n"@ + "Total files: "@ + decimal(n) + "\n\n"@
        + "## Table of Contents\n\n"@
}

/// The table-of-contents line of the file at index `i`.
pub open spec fn toc_line(i: nat, p: Seq<char>) -> Seq<char> {
    decimal(i + 1) + ". ["@ + p + "](#file-"@ + decimal(i + 1) + ")\n"@
}

/// The table-of-contents lines of the first `n` files.
pub open spec fn toc(files: Seq<Seq<char>>, n: nat) -> Seq<char>
    decreases n,
{
    if n == 0 {
        Seq::empty()
    } else {
        toc(files, (n - 1) as nat) + toc_line((n - 1) as nat, files[n - 1])
    }
}

/// The tag of a file's code block: its extension, or nothing.
pub open spec fn fence_tag(p: Seq<char>) -> Seq<char> {
    match extension_of(p) {
        Some(e) => e,
        None => Seq::empty(),
    }
}

/// The text, with a line break added where it does not already end in one.
pub open spec fn ending_in_newline(c: Seq<char>) -> Seq<char> {
    if c.len() > 0 && c.last() == '\n' {
        c
    } else {
        c + "\n"@
    }
}

/// The section of the file at index `i`: a heading, then its text in a code
/// block, or the message of the failure to read it.
pub open spec fn file_section(i: nat, p: Seq<char>, read: Result<Seq<char>, Seq<char>>) -> Seq<char> {
    "## File "@ + decimal(i + 1) + ": "@ + p + "\n\n"@ + match read {
        Ok(c) => "```"@ + fence_tag(p) + "\n"@ + ending_in_newline(c) + "```\n\n"@,
        Err(m) => "Error reading file: "@ + m + "\n\n"@,
    }
}

/// The sections of the first `n` files.
pub open spec fn sections(
    files: Seq<Seq<char>>,
    reads: Seq<Result<Seq<char>, Seq<char>>>,
    n: nat,
) -> Seq<char>
    decreases n,
{
    if n == 0 {
        Seq::empty()
    } else {
        sections(files, reads, (n - 1) as nat) + file_section((n - 1) as nat, files[n - 1], reads[n - 1])
    }
}

/// The full document of the files, given the outcome of reading each.
pub open spec fn full_document(files: Seq<Seq<char>>, reads: Seq<Result<Seq<char>, Seq<char>>>) -> Seq<char> {
    full_header(files.len()) + toc(files, files.len()) + "\n"@ + sections(files, reads, files.len())
}

/// The directory and the file name under which a path stands in the tree;
/// a path without either is not listed.
pub open spec fn tree_entry(p: Seq<char>) -> Option<(Seq<char>, Seq<char>)> {
    match parent_of(p) {
        Some(d) => match file_name_of(p) {
            Some(n) => Some((d, n)),
            None => None,
        },
        None => None,
    }
}

/// The tree entries of the first `n` files, in order.
pub open spec fn tree_entries(files: Seq<Seq<char>>, n: nat) -> Seq<(Seq<char>, Seq<char>)>
    decreases n,
{
    if n == 0 {
        Seq::empty()
    } else {
        let prev = tree_entries(files, (n - 1) as nat);
        match tree_entry(files[n - 1]) {
            Some(e) => prev.push(e),
            None => prev,
        }
    }
}

/// The file names of the first `n` entries that stand in directory `d`.
pub open spec fn names_in(entries: Seq<(Seq<char>, Seq<char>)>, d: Seq<char>, n: nat) -> Seq<Seq<char>>
    decreases n,
{
    if n == 0 {
        Seq::empty()
    } else {
        let prev = names_in(entries, d, (n - 1) as nat);
        if entries[n - 1].0 == d {
            prev.push(entries[n - 1].1)
        } else {
            prev
        }
    }
}

/// The directories of the entries, in order, with repeats.
pub open spec fn entry_dirs(entries: Seq<(Seq<char>, Seq<char>)>) -> Seq<Seq<char>> {
    entries.map_values(|e: (Seq<char>, Seq<char>)| e.0)
}

/// How the tree arranges the entries: each directory once, in text order,
/// and under each its file names, in text order.
pub open spec fn tree_layout(
    entries: Seq<(Seq<char>, Seq<char>)>,
    dirs: Seq<Seq<char>>,
    groups: Seq<Seq<Seq<char>>>,
) -> bool {
    &&& text_sorted(dirs)
    &&& dirs.no_duplicates()
    &&& forall|d: Seq<char>| dirs.contains(d) <==> entry_dirs(entries).contains(d)
    &&& groups.len() == dirs.len()
    &&& forall|k: int| 0 <= k < dirs.len() ==> {
        &&& text_sorted(#[trigger] groups[k])
        &&& groups[k].to_multiset() == names_in(entries, dirs[k], entries.len()).to_multiset()
    }
}

/// The indented lines of the first `n` names.
pub open spec fn name_lines(names: Seq<Seq<char>>, n: nat) -> Seq<char>
    decreases n,
{
    if n == 0 {
        Seq::empty()
    } else {
        name_lines(names, (n - 1) as nat) + "  "@ + names[n - 1] + "\n"@
    }
}

/// The block of one directory: its path, its file names, a blank line.
pub open spec fn dir_block(d: Seq<char>, names: Seq<Seq<char>>) -> Seq<char> {
    d + ":\n"@ + name_lines(names, names.len()) + "\n"@
}

/// The blocks of the first `n` directories.
pub open spec fn dir_blocks(dirs: Seq<Seq<char>>, groups: Seq<Seq<Seq<char>>>, n: nat) -> Seq<char>
    decreases n,
{
    if n == 0 {
        Seq::empty()
    } else {
        dir_blocks(dirs, groups, (n - 1) as nat) + dir_block(dirs[n - 1], groups[n - 1])
    }
}

/// The tree document: a heading and one fenced block of directory blocks.
pub open spec fn tree_document(dirs: Seq<Seq<char>>, groups: Seq<Seq<Seq<char>>>) -> Seq<char> {
    "# File Tree\n\n"@ + "```\n"@ + dir_blocks(dirs, groups, dirs.len()) + "```\n"@
}

/// The entries paired from two lists of equal length.
pub open spec fn paired(ds: Seq<Seq<char>>, ns: Seq<Seq<char>>) -> Seq<(Seq<char>, Seq<char>)> {
    Seq::new(ds.len(), |k: int| (ds[k], ns[k]))
}

/// Two entries of a text-ordered sequence are in text order.
proof fn lemma_sorted_at(s: Seq<Seq<char>>, i: int, j: int)
    requires
        text_sorted(s),
        0 <= i < j < s.len(),
    ensures
        text_le(s[i], s[j]),
{
}

/// A text that no entry follows may be added at the end of a text-ordered sequence.
proof fn lemma_sorted_push(s: Seq<Seq<char>>, x: Seq<char>)
    requires
        text_sorted(s),
        forall|k: int| 0 <= k < s.len() ==> text_le(#[trigger] s[k], x),
    ensures
        text_sorted(s.push(x)),
{
    let t = s.push(x);
    assert forall|i: int, j: int| 0 <= i < j < t.len() implies #[trigger] text_le(t[i], t[j]) by {
        if j < s.len() {
            lemma_sorted_at(s, i, j);
        } else {
            assert(t[i] == s[i]);
        }
    }
}

/// The first `n` blocks depend only on the first `n` groups.
proof fn lemma_dir_blocks_prefix(dirs: Seq<Seq<char>>, g1: Seq<Seq<Seq<char>>>, g2: Seq<Seq<Seq<char>>>, n: nat)
    requires
        n <= g1.len(),
        n <= g2.len(),
        forall|m: int| 0 <= m < n ==> g1[m] == g2[m],
    ensures
        dir_blocks(dirs, g1, n) == dir_blocks(dirs, g2, n),
    decreases n,
{
    if n > 0 {
        lemma_dir_blocks_prefix(dirs, g1, g2, (n - 1) as nat);
    }
}

/// Whether the document is the tree of the files: some arrangement of their
/// entries that `tree_layout` admits, rendered.
pub open spec fn is_tree_document(files: Seq<Seq<char>>, doc: Seq<char>) -> bool {
    exists|dirs: Seq<Seq<char>>, groups: Seq<Seq<Seq<char>>>|
        tree_layout(tree_entries(files, files.len()), dirs, groups) && doc == tree_document(dirs, groups)
}

/// A list of files has one tree document: the arrangement that the tree
/// contract admits is unique.
pub proof fn lemma_tree_document_unique(files: Seq<Seq<char>>, d1: Seq<char>, d2: Seq<char>)
    requires
        is_tree_document(files, d1),
        is_tree_document(files, d2),
    ensures
        d1 == d2,
{
    let es = tree_entries(files, files.len());
    let (dirs1, g1) = choose|dirs: Seq<Seq<char>>, groups: Seq<Seq<Seq<char>>>|
        tree_layout(es, dirs, groups) && d1 == tree_document(dirs, groups);
    let (dirs2, g2) = choose|dirs: Seq<Seq<char>>, groups: Seq<Seq<Seq<char>>>|
        tree_layout(es, dirs, groups) && d2 == tree_document(dirs, groups);
    assert forall|x: Seq<char>| #[trigger] dirs1.to_multiset().count(x) == dirs2.to_multiset().count(x) by {
        lemma_no_duplicates_count(dirs1, x);
        lemma_no_duplicates_count(dirs2, x);
        assert(dirs1.contains(x) <==> entry_dirs(es).contains(x));
        assert(dirs2.contains(x) <==> entry_dirs(es).contains(x));
    }
    assert(dirs1.to_multiset() =~= dirs2.to_multiset());
    lemma_text_sorted_unique(dirs1, dirs2);
    assert forall|k: int| 0 <= k < g1.len() implies #[trigger] g1[k] == g2[k] by {
        lemma_text_sorted_unique(g1[k], g2[k]);
    }
    assert(g1 =~= g2);
}

/// The format named by the text, in either case.
pub open spec fn format_named(name: Seq<char>) -> Option<FormatType> {
    if lower_of(name) == "full"@ {
        Some(FormatType::Full)
    } else if lower_of(name) == "tree"@ {
        Some(FormatType::Tree)
    } else {
        None
    }
}

/// Renders file lists in one of the two formats, chosen once.
pub struct OutputFormatter {
    format_type: FormatType,
}

impl OutputFormatter {
    /// The format that this formatter renders.
    pub closed spec fn format(&self) -> FormatType {
        self.format_type
    }

    /// The formatter for the format named `format` ("full" or "tree", in any
    /// case); any other name is a processing error.
    pub fn new(format: &str) -> (r: Result<Self, FlattenError>)
        ensures
            format_named(format@) is None <==> r is Err,
            r matches Ok(f) ==> format_named(format@) == Some(f.format()),
            r matches Err(e) ==> e is Processing,
    {
        let name = lowercase(format);
        let format_type = if same_text(name.as_str(), "full") {
            FormatType::Full
        } else if same_text(name.as_str(), "tree") {
            FormatType::Tree
        } else {
            let msg = "Unknown format: ".to_owned().concat(format).concat(". Use 'full' or 'tree'");
            return Err(FlattenError::Processing(msg));
        };
        Ok(OutputFormatter { format_type })
    }

    /// The document of the files in this formatter's format; `contents` holds
    /// the outcome of reading each file, which only the full format shows.
    pub fn format_files(&self, files: &Vec<String>, contents: &Vec<Result<String, String>>) -> (r: Result<String, FlattenError>)
        requires
            self.format() == FormatType::Full ==> contents@.len() == files@.len(),
        ensures
            self.format() == FormatType::Full ==> (r matches Ok(doc) && doc@ == full_document(texts(files@), reads_view(contents@))),
            self.format() == FormatType::Tree ==> (r matches Ok(doc) && is_tree_document(texts(files@), doc@)),
    {
        match self.format_type {
            FormatType::Tree => self.format_tree(files),
            FormatType::Full => self.format_full(files, contents),
        }
    }

    /// Whether the document lists the files' contents, so that they must be read.
    pub fn needs_contents(&self) -> (r: bool)
        ensures
            r == (self.format() == FormatType::Full),
    {
        self.format_type == FormatType::Full
    }

    /// The code block that shows a file's text.
    fn code_block(path: &String, content: &String) -> (r: String)
        ensures
            r@ == "```"@ + fence_tag(path@) + "\n"@ + ending_in_newline(content@) + "```\n\n"@,
    {
        let tag = match extension(path.as_str()) {
            Some(e) => e,
            None => String::new(),
        };
        let mut out = String::new();
        out.append("```");
        out.append(tag.as_str());
        out.append("\n");
        let ghost pre = out@;
        out.append(content.as_str());
        let len = content.as_str().unicode_len();
        if len == 0 || content.as_str().get_char(len - 1) != '\n' {
            out.append("\n");
            assert(out@ =~= pre + ending_in_newline(content@));
        } else {
            assert(out@ =~= pre + ending_in_newline(content@));
        }
        out.append("```\n\n");
        assert(out@ =~= "```"@ + fence_tag(path@) + "\n"@ + ending_in_newline(content@) + "```\n\n"@);
        out
    }

    /// The section of the file at index `i`.
    fn section_text(i: usize, path: &String, read: &Result<String, String>) -> (r: String)
        requires
            i < usize::MAX,
        ensures
            r@ == file_section(i as nat, path@, read_view(*read)),
    {
        let num = decimal_text(i + 1);
        let mut out = String::new();
        out.append("## File ");
        out.append(num.as_str());
        out.append(": ");
        out.append(path.as_str());
        out.append("\n\n");
        let ghost head = out@;
        match read {
            Ok(content) => {
                let block = Self::code_block(path, content);
                out.append(block.as_str());
            },
            Err(msg) => {
                out.append("Error reading file: ");
                out.append(msg.as_str());
                out.append("\n\n");
                assert(out@ =~= head + ("Error reading file: "@ + msg@ + "\n\n"@));
            },
        }
        assert(out@ =~= file_section(i as nat, path@, read_view(*read)));
        out
    }

    /// The directories and file names of the tree entries, in order.
    fn entries_of(files: &Vec<String>) -> (r: (Vec<String>, Vec<String>))
        ensures
            r.0@.len() == r.1@.len(),
            paired(texts(r.0@), texts(r.1@)) == tree_entries(texts(files@), files@.len() as nat),
    {
        let ghost fs = texts(files@);
        let mut ds: Vec<String> = Vec::new();
        let mut ns: Vec<String> = Vec::new();
        let mut i: usize = 0;
        while i < files.len()
            invariant
                fs == texts(files@),
                i <= files@.len(),
                ds@.len() == ns@.len(),
                paired(texts(ds@), texts(ns@)) =~= tree_entries(fs, i as nat),
            decreases files@.len() - i,
        {
            match parent(files[i].as_str()) {
                Some(d) => match file_name(files[i].as_str()) {
                    Some(n) => {
                        ds.push(d);
                        ns.push(n);
                    },
                    None => {},
                },
                None => {},
            }
            assert(paired(texts(ds@), texts(ns@)) =~= tree_entries(fs, (i + 1) as nat));
            i = i + 1;
        }
        (ds, ns)
    }

    /// Whether the list holds the text.
    fn holds_text(v: &Vec<String>, s: &String) -> (r: bool)
        ensures
            r == texts(v@).contains(s@),
    {
        let mut i: usize = 0;
        while i < v.len()
            invariant
                i <= v@.len(),
                forall|k: int| 0 <= k < i ==> texts(v@)[k] != s@,
            decreases v@.len() - i,
        {
            if same_text(v[i].as_str(), s.as_str()) {
                assert(texts(v@)[i as int] == s@);
                return true;
            }
            i = i + 1;
        }
        false
    }

    /// The distinct directories of the list, in text order.
    fn distinct_dirs(ds: &Vec<String>) -> (r: Vec<String>)
        ensures
            text_sorted(texts(r@)),
            texts(r@).no_duplicates(),
            forall|d: Seq<char>| texts(r@).contains(d) <==> texts(ds@).contains(d),
    {
        let mut all: Vec<String> = Vec::new();
        let mut i: usize = 0;
        while i < ds.len()
            invariant
                i <= ds@.len(),
                all@ =~= ds@.take(i as int),
            decreases ds@.len() - i,
        {
            all.push(ds[i].clone());
            i = i + 1;
        }
        assert(all@ =~= ds@);
        sort_texts(&mut all);
        let ghost sorted = texts(all@);
        proof {
            texts(ds@).to_multiset_ensures();
            sorted.to_multiset_ensures();
            assert forall|d: Seq<char>| sorted.contains(d) <==> texts(ds@).contains(d) by {
                assert(sorted.contains(d) <==> sorted.to_multiset().count(d) > 0);
                assert(texts(ds@).contains(d) <==> texts(ds@).to_multiset().count(d) > 0);
            }
        }
        let mut out: Vec<String> = Vec::new();
        let ghost mut orig: Seq<int> = Seq::empty();
        let mut j: usize = 0;
        while j < all.len()
            invariant
                sorted == texts(all@),
                text_sorted(sorted),
                forall|d: Seq<char>| sorted.contains(d) <==> texts(ds@).contains(d),
                j <= all@.len(),
                orig.len() == out@.len(),
                forall|k: int| 0 <= k < orig.len() ==> 0 <= #[trigger] orig[k] < j && texts(out@)[k] == sorted[orig[k]],
                forall|k1: int, k2: int| 0 <= k1 < k2 < orig.len() ==> orig[k1] < orig[k2],
                texts(out@).no_duplicates(),
                forall|m: int| 0 <= m < j ==> texts(out@).contains(#[trigger] sorted[m]),
                text_sorted(texts(out@)),
            decreases all@.len() - j,
        {
            if !Self::holds_text(&out, &all[j]) {
                let ghost prev = texts(out@);
                out.push(all[j].clone());
                proof {
                    orig = orig.push(j as int);
                    assert(texts(out@) =~= prev.push(sorted[j as int]));
                    assert forall|k: int| 0 <= k < prev.len() implies text_le(#[trigger] prev[k], sorted[j as int]) by {
                        lemma_sorted_at(sorted, orig[k], j as int);
                    }
                    lemma_sorted_push(prev, sorted[j as int]);
                    assert forall|m: int| 0 <= m < j + 1 implies texts(out@).contains(#[trigger] sorted[m]) by {
                        if m < j {
                            let w = choose|w: int| 0 <= w < prev.len() && prev[w] == sorted[m];
                            assert(texts(out@)[w] == sorted[m]);
                        } else {
                            assert(texts(out@)[prev.len() as int] == sorted[m]);
                        }
                    }
                }
            }
            j = j + 1;
        }
        proof {
            assert forall|d: Seq<char>| texts(out@).contains(d) <==> texts(ds@).contains(d) by {
                assert(sorted.contains(d) <==> texts(ds@).contains(d));
                if texts(out@).contains(d) {
                    let k = choose|k: int| 0 <= k < texts(out@).len() && texts(out@)[k] == d;
                    assert(sorted[orig[k]] == d);
                }
                if sorted.contains(d) {
                    let m = choose|m: int| 0 <= m < sorted.len() && sorted[m] == d;
                    assert(texts(out@).contains(sorted[m]));
                }
            }
        }
        out
    }

    /// The file names of the entries that stand in directory `d`, in text order.
    fn names_under(ds: &Vec<String>, ns: &Vec<String>, d: &String) -> (r: Vec<String>)
        requires
            ds@.len() == ns@.len(),
        ensures
            text_sorted(texts(r@)),
            texts(r@).to_multiset() == names_in(paired(texts(ds@), texts(ns@)), d@, ds@.len() as nat).to_multiset(),
    {
        let ghost es = paired(texts(ds@), texts(ns@));
        let mut names: Vec<String> = Vec::new();
        let mut i: usize = 0;
        while i < ds.len()
            invariant
                ds@.len() == ns@.len(),
                es == paired(texts(ds@), texts(ns@)),
                i <= ds@.len(),
                texts(names@) =~= names_in(es, d@, i as nat),
            decreases ds@.len() - i,
        {
            if same_text(ds[i].as_str(), d.as_str()) {
                names.push(ns[i].clone());
            }
            i = i + 1;
        }
        sort_texts(&mut names);
        names
    }

    /// The block of one directory.
    fn block_text(d: &String, names: &Vec<String>) -> (r: String)
        ensures
            r@ == dir_block(d@, texts(names@)),
    {
        let ghost ns = texts(names@);
        let mut out = String::new();
        out.append(d.as_str());
        out.append(":\n");
        let ghost head = out@;
        let mut i: usize = 0;
        while i < names.len()
            invariant
                ns == texts(names@),
                i <= names@.len(),
                out@ == head + name_lines(ns, i as nat),
            decreases names@.len() - i,
        {
            out.append("  ");
            out.append(names[i].as_str());
            out.append("\n");
            assert(out@ =~= head + name_lines(ns, (i + 1) as nat));
            i = i + 1;
        }
        out.append("\n");
        assert(out@ =~= dir_block(d@, ns));
        out
    }

    /// The tree document: the files grouped by directory, the directories and
    /// the names within each in text order.
    pub fn format_tree(&self, files: &Vec<String>) -> (r: Result<String, FlattenError>)
        ensures
            r matches Ok(doc) && is_tree_document(texts(files@), doc@),
    {
        let (ds, ns) = Self::entries_of(files);
        let ghost es = paired(texts(ds@), texts(ns@));
        let dirs = Self::distinct_dirs(&ds);
        let ghost dv = texts(dirs@);
        proof {
            assert forall|d: Seq<char>| texts(ds@).contains(d) <==> entry_dirs(es).contains(d) by {
                assert(texts(ds@) =~= entry_dirs(es));
            }
        }
        let mut out = String::new();
        out.append("# File Tree\n\n");
        out.append("```\n");
        let ghost head = out@;
        let ghost mut groups: Seq<Seq<Seq<char>>> = Seq::empty();
        let mut k: usize = 0;
        while k < dirs.len()
            invariant
                ds@.len() == ns@.len(),
                es == paired(texts(ds@), texts(ns@)),
                es.len() == ds@.len(),
                dv == texts(dirs@),
                k <= dirs@.len(),
                groups.len() == k,
                forall|m: int| 0 <= m < k ==> {
                    &&& text_sorted(#[trigger] groups[m])
                    &&& groups[m].to_multiset() == names_in(es, dv[m], es.len()).to_multiset()
                },
                out@ == head + dir_blocks(dv, groups, k as nat),
            decreases dirs@.len() - k,
        {
            let names = Self::names_under(&ds, &ns, &dirs[k]);
            let block = Self::block_text(&dirs[k], &names);
            out.append(block.as_str());
            proof {
                let g2 = groups.push(texts(names@));
                assert(dir_blocks(dv, g2, (k + 1) as nat) =~= dir_blocks(dv, groups, k as nat) + dir_block(dv[k as int], texts(names@))) by {
                    assert forall|m: int| 0 <= m < k implies g2[m] == groups[m] by {}
                    lemma_dir_blocks_prefix(dv, groups, g2, k as nat);
                }
                groups = g2;
            }
            k = k + 1;
        }
        out.append("```\n");
        assert(out@ =~= tree_document(dv, groups));
        assert(tree_layout(es, dv, groups));
        Ok(out)
    }

    /// The full document: a heading, the number of files, a numbered table of
    /// contents, and a section per file with its text or its read error.
    pub fn format_full(&self, files: &Vec<String>, contents: &Vec<Result<String, String>>) -> (r: Result<String, FlattenError>)
        requires
            contents@.len() == files@.len(),
        ensures
            r matches Ok(doc) && doc@ == full_document(texts(files@), reads_view(contents@)),
    {
        let ghost fs = texts(files@);
        let ghost rs = reads_view(contents@);
        let n = files.len();
        let mut out = String::new();
        out.append("# Flattened Codebase\n\n");
        out.append("Total files: ");
        let count = decimal_text(n);
        out.append(count.as_str());
        out.append("\n\n");
        out.append("## Table of Contents\n\n");
        let mut i: usize = 0;
        while i < n
            invariant
                n == files@.len(),
                fs == texts(files@),
                i <= n,
                out@ == full_header(n as nat) + toc(fs, i as nat),
            decreases n - i,
        {
            let num = decimal_text(i + 1);
            let ghost before = out@;
            out.append(num.as_str());
            out.append(". [");
            out.append(files[i].as_str());
            out.append("](#file-");
            out.append(num.as_str());
            out.append(")\n");
            assert(out@ =~= before + toc_line(i as nat, fs[i as int]));
            i = i + 1;
        }
        out.append("\n");
        let ghost head = out@;
        let mut j: usize = 0;
        while j < n
            invariant
                n == files@.len(),
                n == contents@.len(),
                fs == texts(files@),
                rs == reads_view(contents@),
                j <= n,
                out@ == head + sections(fs, rs, j as nat),
            decreases n - j,
        {
            let ghost before = out@;
            let section = Self::section_text(j, &files[j], &contents[j]);
            out.append(section.as_str());
            assert(out@ =~= before + file_section(j as nat, fs[j as int], rs[j as int]));
            j = j + 1;
        }
        Ok(out)
    }
}

} // verus!
