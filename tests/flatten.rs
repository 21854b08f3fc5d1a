use flatten::cli::Cli;
use flatten::error::FlattenError;
use flatten::ignore_handler::IgnoreHandler;
use flatten::output::OutputFormatter;
use flatten::processor::{FileProcessor, OutputTarget};

fn s(x: &str) -> String {
    x.to_string()
}

fn strings(xs: &[&str]) -> Vec<String> {
    xs.iter().map(|x| x.to_string()).collect()
}

fn options(format: &str, file: Option<Option<String>>, print: bool, inc: Option<&str>, exc: Option<&str>) -> Cli {
    Cli {
        inputs: Vec::new(),
        output_format: s(format),
        file,
        print,
        include_list: inc.map(s),
        exclude_list: exc.map(s),
    }
}

fn handler(inc: &[&str], exc: &[&str]) -> IgnoreHandler {
    IgnoreHandler::new(strings(inc), strings(exc))
}

#[test]
fn inputs_default_to_current_directory() {
    let cli = options("full", None, false, None, None);
    assert_eq!(cli.get_inputs(), strings(&["."]));
    let mut given = options("full", None, false, None, None);
    given.inputs = strings(&["src", "README.md"]);
    assert_eq!(given.get_inputs(), strings(&["src", "README.md"]));
}

#[test]
fn output_file_follows_the_file_option() {
    assert_eq!(options("full", None, false, None, None).get_output_file(), None);
    assert_eq!(options("full", Some(None), false, None, None).get_output_file(), Some(s("flatten.md")));
    assert_eq!(options("full", Some(Some(s("out.md"))), false, None, None).get_output_file(), Some(s("out.md")));
}

#[test]
fn patterns_are_split_at_commas_and_trimmed() {
    let cli = options("full", None, false, Some(" *.rs , *.go,src/*"), Some("target/*,  dist/*  "));
    assert_eq!(cli.get_include_patterns(), strings(&["*.rs", "*.go", "src/*"]));
    assert_eq!(cli.get_exclude_patterns(), strings(&["target/*", "dist/*"]));
}

#[test]
fn absent_or_empty_pattern_lists() {
    let none = options("full", None, false, None, None);
    assert!(none.get_include_patterns().is_empty());
    assert!(none.get_exclude_patterns().is_empty());
    let empty = options("full", None, false, Some(""), Some("a,,b"));
    assert_eq!(empty.get_include_patterns(), strings(&[""]));
    assert_eq!(empty.get_exclude_patterns(), strings(&["a", "", "b"]));
}

#[test]
fn unmatched_include_leaves_path_out() {
    let h = handler(&["*.go"], &[]);
    assert!(!h.should_include_file("src/main.rs"));
    assert!(h.should_include_file("cmd/main.go"));
    let h2 = handler(&["*.go"], &["*.py"]);
    assert!(!h2.should_include_file("src/main.rs"));
}

#[test]
fn exclude_wins_over_include() {
    let h = handler(&["*.rs"], &["target/*"]);
    assert!(!h.should_include_file("target/gen.rs"));
    assert!(h.should_include_file("src/lib.rs"));
    let h2 = handler(&[], &["*.rs"]);
    assert!(!h2.should_include_file("src/lib.rs"));
    assert!(h2.should_include_file("src/lib.py"));
}

#[test]
fn no_patterns_include_everything_but_ignored_names() {
    let h = handler(&[], &[]);
    assert!(h.should_include_file("src/lib.rs"));
    assert!(!h.should_include_file("web/yarn.lock"));
    assert!(!h.should_include_file("flatten.md"));
    assert!(!h.should_include_file("go.sum"));
    assert!(h.should_include_file("Cargo.lock"));
    let p = FileProcessor::new(options("full", None, false, None, None)).unwrap();
    assert!(!p.keep("/"));
    assert!(p.keep("src/lib.rs"));
}

#[test]
fn malformed_pattern_matches_nothing() {
    let h = handler(&["[a-"], &[]);
    assert!(!h.should_include_file("a.rs"));
    let h2 = handler(&[], &["[a-"]);
    assert!(h2.should_include_file("a.rs"));
}

#[test]
fn text_detection_ignores_case() {
    let h = handler(&[], &[]);
    assert_eq!(h.is_text_file("README.MD"), h.is_text_file("readme.md"));
    assert!(h.is_text_file("README.MD"));
    assert!(h.is_text_file("Makefile"));
    assert!(h.is_text_file("build/DOCKERFILE"));
    assert!(h.is_text_file("main.Rs"));
    assert!(!h.is_text_file("logo.png"));
    assert!(!h.is_text_file("LICENSE"));
    assert!(!h.is_text_file("/"));
}

#[test]
fn formatter_accepts_known_formats_in_any_case() {
    assert!(OutputFormatter::new("full").is_ok());
    assert!(OutputFormatter::new("TREE").is_ok());
    assert!(OutputFormatter::new("Full").unwrap().needs_contents());
    assert!(!OutputFormatter::new("tree").unwrap().needs_contents());
    match OutputFormatter::new("xml") {
        Err(FlattenError::Processing(m)) => assert_eq!(m, "Unknown format: xml. Use 'full' or 'tree'"),
        _ => panic!("expected a processing error"),
    }
}

#[test]
fn error_messages() {
    assert_eq!(FlattenError::Io(s("denied")).message(), "IO error: denied");
    assert_eq!(FlattenError::Pattern(s("bad")).message(), "Pattern error: bad");
    assert_eq!(FlattenError::Processing(s("oops")).message(), "Processing error: oops");
}

#[test]
fn full_document_lists_contents() {
    let f = OutputFormatter::new("full").unwrap();
    let files = strings(&["a.rs", "b.txt"]);
    let contents = vec![Ok(s("fn main() {}\n")), Ok(s("hello"))];
    let doc = f.format_files(&files, &contents).unwrap();
    let expected = "# Flattened Codebase\n\nTotal files: 2\n\n## Table of Contents\n\n\
1. [a.rs](#file-1)\n2. [b.txt](#file-2)\n\n\
## File 1: a.rs\n\n```rs\nfn main() {}\n```\n\n\
## File 2: b.txt\n\n```txt\nhello\n```\n\n";
    assert_eq!(doc, expected);
}

#[test]
fn gitignored_directory_is_absent_from_full_document() {
    let p = FileProcessor::new(options("full", None, false, None, None)).unwrap();
    let walked = strings(&["./b.txt", "./.gitignore", "./a.rs"]);
    let files = p.collect_files_from_directory(&walked);
    assert_eq!(files, strings(&["./a.rs", "./b.txt"]));
    let contents = vec![Ok(s("")), Ok(s("b\n"))];
    let doc = p.render(&files, &contents).unwrap().unwrap();
    assert!(doc.contains("Total files: 2\n"));
    assert!(doc.contains("1. [./a.rs](#file-1)\n2. [./b.txt](#file-2)\n\n"));
    assert!(doc.contains("## File 1: ./a.rs\n\n```rs\n\n```\n\n"));
    assert!(doc.contains("## File 2: ./b.txt\n\n```txt\nb\n```\n\n"));
    assert!(!doc.contains("x.js"));
}

#[test]
fn unreadable_file_gives_error_line() {
    let f = OutputFormatter::new("full").unwrap();
    let files = strings(&["a.rs", "secret.txt"]);
    let contents = vec![Ok(s("x")), Err(s("Permission denied (os error 13)"))];
    let doc = f.format_files(&files, &contents).unwrap();
    assert!(doc.contains("## File 1: a.rs\n\n```rs\nx\n```\n\n"));
    assert!(doc.ends_with("## File 2: secret.txt\n\nError reading file: Permission denied (os error 13)\n\n"));
}

#[test]
fn extensionless_file_has_untagged_block() {
    let f = OutputFormatter::new("full").unwrap();
    let docs = f.format_files(&strings(&["Makefile"]), &vec![Ok(s("all:\n"))]).unwrap();
    assert!(docs.ends_with("## File 1: Makefile\n\n```\nall:\n```\n\n"));
}

#[test]
fn numbering_past_nine() {
    let f = OutputFormatter::new("full").unwrap();
    let names: Vec<String> = (1..=12).map(|i| format!("f{i}.rs")).collect();
    let contents: Vec<Result<String, String>> = names.iter().map(|_| Ok(s("\n"))).collect();
    let doc = f.format_files(&names, &contents).unwrap();
    assert!(doc.contains("Total files: 12\n"));
    assert!(doc.contains("12. [f12.rs](#file-12)\n"));
    assert!(doc.contains("## File 10: f10.rs\n"));
}

#[test]
fn tree_groups_by_directory() {
    let f = OutputFormatter::new("tree").unwrap();
    let files = strings(&["src/main.rs", "src/lib.rs", "README.md"]);
    let doc = f.format_files(&files, &Vec::new()).unwrap();
    assert_eq!(doc, "# File Tree\n\n```\n:\n  README.md\n\nsrc:\n  lib.rs\n  main.rs\n\n```\n");
}

#[test]
fn tree_orders_directories() {
    let f = OutputFormatter::new("tree").unwrap();
    let files = strings(&["z/b.rs", "a/y.rs", "z/a.rs", "a/x.rs"]);
    let doc = f.format_files(&files, &Vec::new()).unwrap();
    assert_eq!(doc, "# File Tree\n\n```\na:\n  x.rs\n  y.rs\n\nz:\n  a.rs\n  b.rs\n\n```\n");
}

#[test]
fn tree_of_nothing() {
    let f = OutputFormatter::new("tree").unwrap();
    assert_eq!(f.format_files(&Vec::new(), &Vec::new()).unwrap(), "# File Tree\n\n```\n```\n");
}

#[test]
fn collected_files_are_sorted() {
    let p = FileProcessor::new(options("full", None, false, None, Some("*.py"))).unwrap();
    let found = strings(&["src/z.rs", "src/b.py", "Cargo.toml", "src/a.rs", "yarn.lock", "logo.png"]);
    assert_eq!(p.collect_files_from_directory(&found), strings(&["Cargo.toml", "src/a.rs", "src/z.rs"]));
    let reordered = strings(&["src/a.rs", "logo.png", "Cargo.toml", "src/z.rs"]);
    assert_eq!(p.collect_files_from_directory(&reordered), strings(&["Cargo.toml", "src/a.rs", "src/z.rs"]));
}

#[test]
fn rerun_gives_identical_document() {
    let p = FileProcessor::new(options("full", None, false, None, None)).unwrap();
    let one = p.collect_files_from_directory(&strings(&["b.rs", "a.rs"]));
    let two = p.collect_files_from_directory(&strings(&["a.rs", "b.rs"]));
    let contents = vec![Ok(s("a")), Ok(s("b"))];
    assert_eq!(p.render(&one, &contents).unwrap(), p.render(&two, &contents).unwrap());
}

#[test]
fn nothing_to_render_without_files() {
    let p = FileProcessor::new(options("full", Some(None), false, Some("*.zz"), None)).unwrap();
    let files = p.collect_files_from_directory(&strings(&["a.rs"]));
    assert!(files.is_empty());
    assert!(p.render(&files, &Vec::new()).unwrap().is_none());
}

#[test]
fn processor_rejects_unknown_format() {
    assert!(matches!(FileProcessor::new(options("json", None, false, None, None)), Err(FlattenError::Processing(_))));
}

#[test]
fn output_target_priority() {
    let to_file = FileProcessor::new(options("full", Some(Some(s("o.md"))), true, None, None)).unwrap();
    assert!(matches!(to_file.output_target(), OutputTarget::File(f) if f == "o.md"));
    let default_file = FileProcessor::new(options("full", Some(None), false, None, None)).unwrap();
    assert!(matches!(default_file.output_target(), OutputTarget::File(f) if f == "flatten.md"));
    let printed = FileProcessor::new(options("full", None, true, None, None)).unwrap();
    assert!(matches!(printed.output_target(), OutputTarget::Stdout));
    let copied = FileProcessor::new(options("tree", None, false, None, None)).unwrap();
    assert!(matches!(copied.output_target(), OutputTarget::Clipboard));
}
