use rustoji::candidates::collect_png_candidates;
use rustoji::candidates::collect_remaining;
use rustoji::candidates::merge;
use rustoji::candidates::DirEntry;
use rustoji::catalog::Catalog;
use rustoji::catalog::CatalogEntry;
use rustoji::failure::Failure;
use rustoji::history::History;
use rustoji::protocol::candidate_lines;
use rustoji::protocol::emit;
use rustoji::protocol::format_png_line;
use rustoji::protocol::format_unicode_line;
use rustoji::protocol::history_lines;
use rustoji::protocol::picker_input;
use rustoji::protocol::png_lines;
use rustoji::protocol::unicode_lines;
use rustoji::protocol::OnMissing;
use rustoji::protocol::Picker;

const DIR: &str = "/home/u/assets/emojis";

fn history_of(pairs: &[(&str, u32)]) -> History {
    let mut history = History::new();
    for (identity, count) in pairs {
        history.insert(identity.to_string(), *count);
    }
    history
}

fn catalog_of(pairs: &[(&str, &str)]) -> Catalog {
    let mut catalog = Catalog::new();
    for (grapheme, name) in pairs {
        catalog.insert(grapheme.to_string(), name.to_string());
    }
    catalog
}

fn file(name: &str) -> DirEntry {
    DirEntry { name: name.to_string(), is_file: true }
}

fn dir(name: &str) -> DirEntry {
    DirEntry { name: name.to_string(), is_file: false }
}

fn texts(list: &[&str]) -> Vec<String> {
    list.iter().map(|s| s.to_string()).collect()
}

#[test]
fn a_missing_directory_has_no_candidates() {
    assert!(collect_png_candidates(&None, &texts(&["party.png"])).is_empty());
    assert!(collect_png_candidates(&None, &Vec::new()).is_empty());
}

#[test]
fn an_empty_directory_has_no_candidates() {
    assert!(collect_png_candidates(&Some(Vec::new()), &Vec::new()).is_empty());
}

#[test]
fn only_regular_png_files_are_candidates() {
    let scan = Some(vec![
        file("heart.png"),
        dir("folder.png"),
        file("notes.txt"),
        file("LOUD.PNG"),
        file(".png"),
        file("png"),
        dir("sub"),
        file("star.png"),
    ]);
    assert_eq!(collect_png_candidates(&scan, &Vec::new()), vec!["heart.png", "star.png"]);
}

#[test]
fn files_that_the_history_names_are_left_out() {
    let scan = Some(vec![file("party.png"), file("heart.png"), file("star.png")]);
    let taken = texts(&["grin", "star.png", "party.png"]);
    assert_eq!(collect_png_candidates(&scan, &taken), vec!["heart.png"]);
}

#[test]
fn candidates_keep_the_order_of_the_scan() {
    let scan = Some(vec![file("c.png"), file("a.png"), file("b.png")]);
    assert_eq!(collect_png_candidates(&scan, &Vec::new()), vec!["c.png", "a.png", "b.png"]);
}

#[test]
fn catalog_entries_that_the_history_names_are_left_out() {
    let catalog = catalog_of(&[("😀", "grin"), ("🎉", "party"), ("❤", "heart")]);
    let rest = collect_remaining(&catalog, &texts(&["🎉", "party.png"]));
    assert_eq!(
        rest,
        vec![
            CatalogEntry { grapheme: "😀".to_string(), name: "grin".to_string() },
            CatalogEntry { grapheme: "❤".to_string(), name: "heart".to_string() },
        ]
    );
    assert_eq!(collect_remaining(&catalog, &Vec::new()).len(), 3);
    assert!(collect_remaining(&Catalog::new(), &texts(&["😀"])).is_empty());
}

#[test]
fn merge_puts_the_history_first() {
    let history = history_of(&[("party.png", 1), ("😀", 3)]);
    let catalog = catalog_of(&[("😀", "grin"), ("🎉", "party")]);
    let scan = Some(vec![file("party.png"), file("heart.png")]);
    let list = merge(&history, &catalog, &scan);
    assert_eq!(list.ranked, vec!["😀", "party.png"]);
    assert_eq!(list.pngs, vec!["heart.png"]);
    assert_eq!(
        list.unicode,
        vec![CatalogEntry { grapheme: "🎉".to_string(), name: "party".to_string() }]
    );
}

#[test]
fn merge_names_no_identity_twice() {
    let history = history_of(&[("a.png", 2), ("😀", 2), ("gone.png", 5), ("❤", 0)]);
    let catalog = catalog_of(&[("😀", "grin"), ("🎉", "party"), ("❤", "heart"), ("👍", "ok")]);
    let scan = Some(vec![file("a.png"), file("b.png"), dir("c.png"), file("d.png")]);
    let list = merge(&history, &catalog, &scan);
    let mut all: Vec<String> = list.ranked.clone();
    all.extend(list.pngs.iter().cloned());
    all.extend(list.unicode.iter().map(|e| e.grapheme.clone()));
    assert_eq!(all, vec!["gone.png", "a.png", "😀", "❤", "b.png", "d.png", "🎉", "👍"]);
    let mut sorted = all.clone();
    sorted.sort();
    sorted.dedup();
    assert_eq!(sorted.len(), all.len());
}

#[test]
fn merge_of_nothing_is_empty() {
    let list = merge(&History::new(), &Catalog::new(), &None);
    assert!(list.ranked.is_empty());
    assert!(list.pngs.is_empty());
    assert!(list.unicode.is_empty());
}

#[test]
fn the_line_of_a_png_candidate_carries_its_path() {
    assert_eq!(
        format_png_line(DIR, "party.png"),
        "party.png\0icon\x1f/home/u/assets/emojis/party.png"
    );
    assert_eq!(format_png_line("/e/", "a.png"), "a.png\0icon\x1f/e/a.png");
}

#[test]
fn the_line_of_a_png_candidate_has_the_marker_bytes() {
    let line = format_png_line("/e", "a.png");
    assert_eq!(
        line.as_bytes(),
        [b'a', b'.', b'p', b'n', b'g', 0, b'i', b'c', b'o', b'n', 0x1f, b'/', b'e', b'/', b'a', b'.', b'p', b'n', b'g']
    );
}

#[test]
fn the_line_of_a_unicode_candidate_is_name_then_grapheme() {
    assert_eq!(format_unicode_line("grin", "😀"), "grin 😀");
    assert_eq!(format_unicode_line("red heart", "❤"), "red heart ❤");
    assert_eq!(format_unicode_line("", ""), " ");
}

#[test]
fn history_lines_follow_the_kind_of_each_identity() {
    let catalog = catalog_of(&[("😀", "grin")]);
    let ranked = texts(&["😀", "party.png"]);
    assert_eq!(
        history_lines(&ranked, &catalog, DIR, OnMissing::Fail),
        Ok(texts(&["grin 😀", "party.png\0icon\x1f/home/u/assets/emojis/party.png"]))
    );
}

#[test]
fn a_png_identity_needs_neither_file_nor_catalog_entry() {
    let ranked = texts(&["gone.png"]);
    assert_eq!(
        history_lines(&ranked, &Catalog::new(), "/e", OnMissing::Fail),
        Ok(texts(&["gone.png\0icon\x1f/e/gone.png"]))
    );
}

#[test]
fn an_identity_without_catalog_entry_fails_the_history_lines() {
    let catalog = catalog_of(&[("😀", "grin")]);
    let ranked = texts(&["😀", "lost", "party.png", "also lost"]);
    assert_eq!(
        history_lines(&ranked, &catalog, DIR, OnMissing::Fail),
        Err(Failure::MissingCatalogEntry { identity: "lost".to_string() })
    );
}

#[test]
fn an_identity_without_catalog_entry_can_be_shown_as_it_is() {
    let catalog = catalog_of(&[("😀", "grin")]);
    let ranked = texts(&["😀", "lost", "a.png", "also lost"]);
    assert_eq!(
        history_lines(&ranked, &catalog, "/e", OnMissing::ShowIdentity),
        Ok(texts(&["grin 😀", "lost", "a.png\0icon\x1f/e/a.png", "also lost"]))
    );
}

#[test]
fn png_and_unicode_sections_are_written_in_order() {
    assert_eq!(
        png_lines(&texts(&["b.png", "a.png"]), "/e"),
        texts(&["b.png\0icon\x1f/e/b.png", "a.png\0icon\x1f/e/a.png"])
    );
    assert!(png_lines(&Vec::new(), "/e").is_empty());
    let entries = vec![
        CatalogEntry { grapheme: "🎉".to_string(), name: "party".to_string() },
        CatalogEntry { grapheme: "😀".to_string(), name: "grin".to_string() },
    ];
    assert_eq!(unicode_lines(&entries), texts(&["party 🎉", "grin 😀"]));
    assert!(unicode_lines(&Vec::new()).is_empty());
}

#[test]
fn candidate_lines_are_history_then_pngs_then_catalog() {
    let history = history_of(&[("party.png", 1), ("😀", 3)]);
    let catalog = catalog_of(&[("😀", "grin"), ("🎉", "party")]);
    let scan = Some(vec![file("party.png"), file("heart.png")]);
    let list = merge(&history, &catalog, &scan);
    assert_eq!(
        candidate_lines(&list, &catalog, "/e", OnMissing::Fail),
        Ok(texts(&[
            "grin 😀",
            "party.png\0icon\x1f/e/party.png",
            "heart.png\0icon\x1f/e/heart.png",
            "party 🎉",
        ]))
    );
}

#[test]
fn emit_merges_and_writes() {
    let history = history_of(&[("party.png", 1), ("😀", 3)]);
    let catalog = catalog_of(&[("😀", "grin"), ("🎉", "party")]);
    let scan = Some(vec![file("party.png"), file("heart.png")]);
    assert_eq!(
        emit(&history, &catalog, &scan, "/e", OnMissing::Fail),
        Ok(texts(&[
            "grin 😀",
            "party.png\0icon\x1f/e/party.png",
            "heart.png\0icon\x1f/e/heart.png",
            "party 🎉",
        ]))
    );
    assert_eq!(emit(&History::new(), &Catalog::new(), &None, "/e", OnMissing::Fail), Ok(Vec::new()));
}

#[test]
fn history_prefix_is_ranked_and_later_sections_skip_it() {
    let history = history_of(&[("😀 grin", 3), ("party.png", 1)]);
    let catalog = catalog_of(&[("😀", "grin")]);
    let scan = Some(vec![file("party.png"), file("heart.png")]);
    assert_eq!(history.ranked(), vec!["😀 grin", "party.png"]);
    let list = merge(&history, &catalog, &scan);
    assert_eq!(list.ranked, vec!["😀 grin", "party.png"]);
    assert_eq!(list.pngs, vec!["heart.png"]);
    let lines = emit(&history, &catalog, &scan, "/e", OnMissing::ShowIdentity).unwrap();
    assert_eq!(&lines[..2], &texts(&["😀 grin", "party.png\0icon\x1f/e/party.png"])[..]);
    assert_eq!(lines.iter().filter(|l| l.starts_with("party.png\0")).count(), 1);
    assert_eq!(lines.iter().filter(|l| l.starts_with("heart.png\0")).count(), 1);
    assert_eq!(lines[2], "heart.png\0icon\x1f/e/heart.png");
    assert_eq!(
        emit(&history, &catalog, &scan, "/e", OnMissing::Fail),
        Err(Failure::MissingCatalogEntry { identity: "😀 grin".to_string() })
    );
}

#[test]
fn catalog_grapheme_in_the_history_is_written_once() {
    let history = history_of(&[("😀", 3), ("party.png", 1)]);
    let catalog = catalog_of(&[("😀", "grin")]);
    let scan = Some(vec![file("party.png"), file("heart.png")]);
    let lines = emit(&history, &catalog, &scan, "/e", OnMissing::Fail).unwrap();
    assert_eq!(
        lines,
        texts(&["grin 😀", "party.png\0icon\x1f/e/party.png", "heart.png\0icon\x1f/e/heart.png"])
    );
}

#[test]
fn the_picker_is_the_named_one_or_fuzzel() {
    assert_eq!(Picker::from_arg(Some("bemenu")), Picker::Bemenu);
    assert_eq!(Picker::from_arg(Some("fuzzel")), Picker::Fuzzel);
    assert_eq!(Picker::from_arg(Some("rofi")), Picker::Fuzzel);
    assert_eq!(Picker::from_arg(Some("Bemenu")), Picker::Fuzzel);
    assert_eq!(Picker::from_arg(Some("")), Picker::Fuzzel);
    assert_eq!(Picker::from_arg(None), Picker::Fuzzel);
}

#[test]
fn only_fuzzel_takes_arguments() {
    assert_eq!(Picker::Fuzzel.program(), "fuzzel");
    assert_eq!(Picker::Bemenu.program(), "bemenu");
    assert_eq!(Picker::Fuzzel.arguments(), vec!["--dmenu", "--counter"]);
    assert!(Picker::Bemenu.arguments().is_empty());
}

#[test]
fn each_line_of_the_input_ends_in_a_line_feed() {
    assert_eq!(picker_input(&Vec::new()), "");
    assert_eq!(picker_input(&texts(&["grin 😀"])), "grin 😀\n");
    assert_eq!(
        picker_input(&texts(&["grin 😀", "a.png\0icon\x1f/e/a.png", ""])),
        "grin 😀\na.png\0icon\x1f/e/a.png\n\n"
    );
}

#[test]
fn a_grapheme_that_is_also_a_file_name_is_listed_in_both_sections() {
    let catalog = catalog_of(&[("a.png", "odd")]);
    let scan = Some(vec![file("a.png")]);
    let list = merge(&History::new(), &catalog, &scan);
    assert_eq!(list.pngs, vec!["a.png"]);
    assert_eq!(list.unicode.len(), 1);
    assert_eq!(list.unicode[0].grapheme, "a.png");
    let counted = history_of(&[("a.png", 1)]);
    let list = merge(&counted, &catalog, &scan);
    assert_eq!(list.ranked, vec!["a.png"]);
    assert!(list.pngs.is_empty());
    assert!(list.unicode.is_empty());
}
