//! The command-line options of a run, and what they amount to.

use crate::text::{opt_text, texts, trim, trimmed};
use vstd::prelude::*;

verus! {

/// The pieces of the text between commas, in order; a text without commas is
/// one piece, and the empty text is one empty piece.
pub open spec fn split_commas(s: Seq<char>) -> Seq<Seq<char>>
    decreases s.len(),
{
    if s.len() == 0 {
        seq![Seq::empty()]
    } else {
        let prev = split_commas(s.drop_last());
        if s.last() == ',' {
            prev.push(Seq::empty())
        } else {
            prev.update(prev.len() - 1, prev.last().push(s.last()))
        }
    }
}

/// The patterns of an optional comma-separated list, each trimmed of
/// surrounding whitespace; no list gives no patterns.
pub open spec fn pattern_list(opt: Option<Seq<char>>) -> Seq<Seq<char>> {
    match opt {
        Some(s) => split_commas(s).map_values(|p: Seq<char>| trimmed(p)),
        None => Seq::empty(),
    }
}

/// The file written when the file option is given without a name.
pub open spec fn default_output_file() -> Seq<char> {
    "flatten.md"@
}

/// The file that the options send the document to, if any.
pub open spec fn output_file_of(cli: Cli) -> Option<Seq<char>> {
    match cli.file {
        None => None,
        Some(None) => Some(default_output_file()),
        Some(Some(f)) => Some(f@),
    }
}

/// The options of a run.
pub struct Cli {
    /// Files or directories to process.
    pub inputs: Vec<String>,
    /// Output format: "tree" or "full".
    pub output_format: String,
    /// Save to a file: absent, given without a name, or given with one.
    pub file: Option<Option<String>>,
    /// Print the document instead of copying it to the clipboard.
    pub print: bool,
    /// Comma-separated glob patterns that a file must match.
    pub include_list: Option<String>,
    /// Comma-separated glob patterns that leave a file out.
    pub exclude_list: Option<String>,
}

proof fn lemma_split_commas_nonempty(s: Seq<char>)
    ensures
        split_commas(s).len() >= 1,
    decreases s.len(),
{
    if s.len() > 0 {
        lemma_split_commas_nonempty(s.drop_last());
    }
}

/// The trimmed pieces of `s` between commas.
fn split_patterns(s: &String) -> (r: Vec<String>)
    ensures
        texts(r@) == pattern_list(Some(s@)),
{
    let n = s.as_str().unicode_len();
    let ghost sv = s@;
    let mut out: Vec<String> = Vec::new();
    let mut start: usize = 0;
    let mut i: usize = 0;
    proof {
        lemma_split_commas_nonempty(sv.take(0));
        assert(sv.take(0) =~= Seq::<char>::empty());
    }
    while i < n
        invariant
            n == sv.len(),
            sv == s@,
            start <= i <= n,
            split_commas(sv.take(i as int)).len() >= 1,
            texts(out@) =~= split_commas(sv.take(i as int)).drop_last().map_values(|p: Seq<char>| trimmed(p)),
            split_commas(sv.take(i as int)).last() =~= sv.subrange(start as int, i as int),
        decreases n - i,
    {
        let ghost prev = split_commas(sv.take(i as int));
        let ghost next = sv.take(i + 1);
        assert(next.drop_last() =~= sv.take(i as int));
        assert(next.last() == sv[i as int]);
        if s.as_str().get_char(i) == ',' {
            let piece = trim(s.as_str().substring_char(start, i));
            let ghost before = out@;
            out.push(piece);
            assert(out@ =~= before.push(piece));
            assert(texts(out@) =~= texts(before).push(piece@));
            assert(piece@ == trimmed(prev.last()));
            start = i + 1;
            assert(split_commas(next) == prev.push(Seq::empty()));
            assert(split_commas(next).drop_last() =~= prev);
            assert(texts(out@) =~= split_commas(next).drop_last().map_values(|p: Seq<char>| trimmed(p)));
        } else {
            assert(split_commas(next) == prev.update(prev.len() - 1, prev.last().push(sv[i as int])));
            assert(split_commas(next).drop_last() =~= prev.drop_last());
            assert(sv.subrange(start as int, i + 1) =~= sv.subrange(start as int, i as int).push(sv[i as int]));
        }
        i = i + 1;
    }
    let last = trim(s.as_str().substring_char(start, n));
    let ghost before = out@;
    out.push(last);
    assert(out@ =~= before.push(last));
    assert(texts(out@) =~= texts(before).push(last@));
    proof {
        let all = split_commas(sv.take(n as int));
        assert(sv.take(n as int) =~= sv);
        assert(all =~= all.drop_last().push(all.last()));
        assert(texts(out@) =~= all.map_values(|p: Seq<char>| trimmed(p)));
    }
    out
}

impl Cli {
    /// The inputs, or the current directory when there are none.
    pub fn get_inputs(&self) -> (r: Vec<String>)
        ensures
            self.inputs@.len() == 0 ==> texts(r@) == seq!["."@],
            self.inputs@.len() > 0 ==> texts(r@) == texts(self.inputs@),
    {
        if self.inputs.len() == 0 {
            let r = vec![".".to_owned()];
            assert(texts(r@) =~= seq!["."@]);
            r
        } else {
            let mut r: Vec<String> = Vec::new();
            let mut i: usize = 0;
            while i < self.inputs.len()
                invariant
                    i <= self.inputs@.len(),
                    r@ =~= self.inputs@.take(i as int),
                decreases self.inputs@.len() - i,
            {
                r.push(self.inputs[i].clone());
                i = i + 1;
            }
            assert(r@ =~= self.inputs@);
            r
        }
    }

    /// The file to write the document to: none without the file option, the
    /// default name where it is given without one.
    pub fn get_output_file(&self) -> (r: Option<String>)
        ensures
            opt_text(r) == output_file_of(*self),
    {
        match &self.file {
            None => None,
            Some(None) => Some("flatten.md".to_owned()),
            Some(Some(f)) => Some(f.clone()),
        }
    }

    /// The include patterns, split at commas and trimmed.
    pub fn get_include_patterns(&self) -> (r: Vec<String>)
        ensures
            texts(r@) == pattern_list(opt_text(self.include_list)),
    {
        match &self.include_list {
            Some(s) => split_patterns(s),
            None => Vec::new(),
        }
    }

    /// The exclude patterns, split at commas and trimmed.
    pub fn get_exclude_patterns(&self) -> (r: Vec<String>)
        ensures
            texts(r@) == pattern_list(opt_text(self.exclude_list)),
    {
        match &self.exclude_list {
            Some(s) => split_patterns(s),
            None => Vec::new(),
        }
    }
}

} // verus!
