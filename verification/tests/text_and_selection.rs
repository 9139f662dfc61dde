use rustoji::failure::Failure;
use rustoji::selection::read_selection;
use rustoji::selection::resolve;
use rustoji::selection::Selection;
use rustoji::text::contains_text;
use rustoji::text::ends_with_png;
use rustoji::text::is_png_file_name;
use rustoji::text::split_at_first_space;
use rustoji::text::text_eq;
use rustoji::text::trim;

fn png(file_name: &str) -> Selection {
    Selection::Png { file_name: file_name.to_string() }
}

fn unicode(grapheme: &str, name: &str) -> Selection {
    Selection::Unicode { grapheme: grapheme.to_string(), name: name.to_string() }
}

#[test]
fn ends_with_png_looks_at_the_last_four_characters() {
    assert!(ends_with_png("party.png"));
    assert!(ends_with_png(".png"));
    assert!(ends_with_png("a b.png"));
    assert!(ends_with_png("😀.png"));
    assert!(!ends_with_png("party.PNG"));
    assert!(!ends_with_png("party.png "));
    assert!(!ends_with_png("partypng"));
    assert!(!ends_with_png("png"));
    assert!(!ends_with_png(""));
    assert!(!ends_with_png("party.jpg"));
}

#[test]
fn png_file_name_needs_a_stem() {
    assert!(is_png_file_name("a.png"));
    assert!(is_png_file_name("..png"));
    assert!(is_png_file_name("heart.tar.png"));
    assert!(!is_png_file_name(".png"));
    assert!(!is_png_file_name("a.PNG"));
    assert!(!is_png_file_name("png"));
    assert!(!is_png_file_name("a.png.bak"));
}

#[test]
fn text_eq_compares_characters() {
    assert!(text_eq("", ""));
    assert!(text_eq("bemenu", "bemenu"));
    assert!(!text_eq("bemenu", "Bemenu"));
    assert!(!text_eq("bemenu", "bemenu "));
}

#[test]
fn contains_text_finds_whole_entries_only() {
    let list = vec!["grin".to_string(), "party.png".to_string()];
    assert!(contains_text(&list, "grin"));
    assert!(contains_text(&list, "party.png"));
    assert!(!contains_text(&list, "party"));
    assert!(!contains_text(&list, ""));
    assert!(!contains_text(&Vec::new(), "grin"));
}

#[test]
fn split_is_at_the_first_space() {
    assert_eq!(
        split_at_first_space("😀 grinning face"),
        Some(("😀".to_string(), "grinning face".to_string()))
    );
    assert_eq!(split_at_first_space("a b"), Some(("a".to_string(), "b".to_string())));
    assert_eq!(split_at_first_space(" b"), Some(("".to_string(), "b".to_string())));
    assert_eq!(split_at_first_space("a "), Some(("a".to_string(), "".to_string())));
    assert_eq!(split_at_first_space("a  b"), Some(("a".to_string(), " b".to_string())));
    assert_eq!(split_at_first_space(" "), Some(("".to_string(), "".to_string())));
    assert_eq!(split_at_first_space("ab"), None);
    assert_eq!(split_at_first_space(""), None);
    assert_eq!(split_at_first_space("a\tb"), None);
}

#[test]
fn trim_removes_whitespace_at_both_ends_only() {
    assert_eq!(trim("  😀 grin \n"), "😀 grin");
    assert_eq!(trim("party.png\n"), "party.png");
    assert_eq!(trim("\t\r\n a \u{a0}\u{3000}"), "a");
    assert_eq!(trim("a"), "a");
    assert_eq!(trim("a  b"), "a  b");
    assert_eq!(trim(""), "");
    assert_eq!(trim(" \n\t "), "");
    assert_eq!(trim("\u{200b}a"), "\u{200b}a");
}

#[test]
fn a_line_ending_in_png_is_an_image() {
    assert_eq!(resolve("party.png"), Ok(png("party.png")));
    assert_eq!(resolve("my party.png"), Ok(png("my party.png")));
    assert_eq!(resolve(".png"), Ok(png(".png")));
}

#[test]
fn another_line_is_split_at_its_first_space() {
    assert_eq!(resolve("😀 grin"), Ok(unicode("😀", "grin")));
    assert_eq!(resolve("😀 grinning face"), Ok(unicode("😀", "grinning face")));
    assert_eq!(resolve("x.png y"), Ok(unicode("x.png", "y")));
    assert_eq!(resolve(" grin"), Ok(unicode("", "grin")));
}

#[test]
fn a_line_with_neither_suffix_nor_space_is_invalid() {
    assert_eq!(resolve("grin"), Err(Failure::InvalidSelection));
    assert_eq!(resolve("😀"), Err(Failure::InvalidSelection));
    assert_eq!(resolve(""), Err(Failure::InvalidSelection));
    assert_eq!(resolve("party.PNG"), Err(Failure::InvalidSelection));
}

#[test]
fn the_identity_is_the_file_name_or_the_name() {
    assert_eq!(png("party.png").identity(), "party.png");
    assert_eq!(unicode("😀", "grin").identity(), "grin");
    assert!(png("party.png").is_png());
    assert!(!unicode("😀", "grin").is_png());
}

#[test]
fn empty_output_selects_nothing() {
    assert_eq!(read_selection(""), Ok(None));
    assert_eq!(read_selection("\n"), Ok(None));
    assert_eq!(read_selection("  \t\n"), Ok(None));
}

#[test]
fn output_is_trimmed_before_it_is_resolved() {
    assert_eq!(read_selection("party.png\n"), Ok(Some(png("party.png"))));
    assert_eq!(read_selection("  😀 grin\n"), Ok(Some(unicode("😀", "grin"))));
    assert_eq!(read_selection("grin\n"), Err(Failure::InvalidSelection));
    assert_eq!(read_selection("party.png \n"), Ok(Some(png("party.png"))));
}

#[test]
fn failures_describe_themselves() {
    assert_eq!(Failure::InvalidSelection.message(), "Invalid emoji format");
    assert_eq!(
        Failure::MissingCatalogEntry { identity: "grin".to_string() }.message(),
        "No catalog entry for grin"
    );
    assert_eq!(Failure::MalformedStore.message(), "Malformed store document");
    assert_eq!(Failure::HomeNotFound.message(), "No home directory");
    assert_eq!(Failure::PathNotUnicode.message(), "Path is not valid Unicode");
}
