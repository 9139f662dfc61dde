use rustoji::clipboard::clipboard_action;
use rustoji::clipboard::ClipboardAction;
use rustoji::clipboard::CopyMode;
use rustoji::config::Config;
use rustoji::config::CATALOG_FILE;
use rustoji::config::DATA_FOLDER;
use rustoji::config::HISTORY_FILE;
use rustoji::config::PNG_EMOJIS_PATH;
use rustoji::config::UNICODE_EMOJIS_FILE_URL;
use rustoji::failure::Failure;
use rustoji::history::History;
use rustoji::protocol::OnMissing;
use rustoji::selection::Selection;
use rustoji::session::complete;
use rustoji::session::decide;
use rustoji::session::notification_arguments;
use rustoji::session::Step;
use rustoji::store::load_history;

const DIR: &str = "/home/u/assets/emojis";

fn png(file_name: &str) -> Selection {
    Selection::Png { file_name: file_name.to_string() }
}

fn unicode(grapheme: &str, name: &str) -> Selection {
    Selection::Unicode { grapheme: grapheme.to_string(), name: name.to_string() }
}

#[test]
fn the_copy_mode_is_path_unless_the_argument_is_false() {
    assert_eq!(CopyMode::from_arg(None), CopyMode::Path);
    assert_eq!(CopyMode::from_arg(Some("false")), CopyMode::Bytes);
    assert_eq!(CopyMode::from_arg(Some("true")), CopyMode::Path);
    assert_eq!(CopyMode::from_arg(Some("")), CopyMode::Path);
    assert_eq!(CopyMode::from_arg(Some("0")), CopyMode::Path);
    assert_eq!(CopyMode::from_arg(Some("false ")), CopyMode::Path);
}

#[test]
fn the_copy_mode_argument_is_compared_without_case() {
    assert_eq!(CopyMode::from_arg(Some("FALSE")), CopyMode::Bytes);
    assert_eq!(CopyMode::from_arg(Some("False")), CopyMode::Bytes);
    assert_eq!(CopyMode::from_arg(Some("fAlSe")), CopyMode::Bytes);
    assert_eq!(CopyMode::from_arg(Some("TRUE")), CopyMode::Path);
}

#[test]
fn the_lowered_argument_is_compared_as_it_is() {
    assert_eq!(CopyMode::from_lowered("false"), CopyMode::Bytes);
    assert_eq!(CopyMode::from_lowered("FALSE"), CopyMode::Path);
    assert_eq!(CopyMode::from_lowered("true"), CopyMode::Path);
    assert_eq!(CopyMode::from_lowered(""), CopyMode::Path);
}

#[test]
fn a_unicode_emoji_is_copied_as_text() {
    for mode in [CopyMode::Path, CopyMode::Bytes] {
        assert_eq!(
            clipboard_action(&unicode("😀", "grin"), DIR, mode),
            ClipboardAction::Text { text: "😀".to_string() }
        );
    }
}

#[test]
fn a_unicode_emoji_is_text_even_if_it_looks_like_a_file() {
    assert_eq!(
        clipboard_action(&unicode("x.png", "y"), DIR, CopyMode::Path),
        ClipboardAction::Text { text: "x.png".to_string() }
    );
}

#[test]
fn an_image_is_copied_as_a_file_uri_in_path_mode() {
    assert_eq!(
        clipboard_action(&png("party.png"), DIR, CopyMode::Path),
        ClipboardAction::UriList { uri: "file:///home/u/assets/emojis/party.png".to_string() }
    );
}

#[test]
fn an_image_is_copied_as_bytes_in_bytes_mode() {
    assert_eq!(
        clipboard_action(&png("party.png"), DIR, CopyMode::Bytes),
        ClipboardAction::Image { path: "/home/u/assets/emojis/party.png".to_string() }
    );
}

#[test]
fn each_action_has_its_content_type_and_arguments() {
    let text = ClipboardAction::Text { text: "😀".to_string() };
    let uri = ClipboardAction::UriList { uri: "file:///e/a.png".to_string() };
    let image = ClipboardAction::Image { path: "/e/a.png".to_string() };
    assert_eq!(text.content_type(), "text/plain");
    assert_eq!(uri.content_type(), "text/uri-list");
    assert_eq!(image.content_type(), "image/png");
    assert_eq!(text.arguments(), vec!["😀", "-t", "text/plain"]);
    assert_eq!(uri.arguments(), vec!["file:///e/a.png", "-t", "text/uri-list"]);
    assert_eq!(image.arguments(), vec!["-t", "image/png"]);
    assert_eq!(text.input_file(), None);
    assert_eq!(uri.input_file(), None);
    assert_eq!(image.input_file(), Some(&"/e/a.png".to_string()));
}

#[test]
fn empty_output_ends_the_run_with_nothing_to_do() {
    let before = load_history(Some("{\"party.png\": 1}")).unwrap();
    let history = before.clone();
    assert_eq!(decide("", DIR, CopyMode::Path), Ok(None));
    assert_eq!(decide("\n", DIR, CopyMode::Bytes), Ok(None));
    assert_eq!(history, before);
}

#[test]
fn a_picked_image_is_copied_by_path_and_counted() {
    let mode = CopyMode::from_arg(None);
    let step = decide("party.png\n", DIR, mode).unwrap().unwrap();
    assert_eq!(
        step,
        Step {
            selection: png("party.png"),
            action: ClipboardAction::UriList {
                uri: "file:///home/u/assets/emojis/party.png".to_string()
            },
        }
    );
    assert_eq!(
        step.action.arguments(),
        vec!["file:///home/u/assets/emojis/party.png", "-t", "text/uri-list"]
    );
    let mut history = load_history(Some("{\"party.png\": 1, \"grin\": 3}")).unwrap();
    assert_eq!(complete(&mut history, &step.selection), Some(2));
    assert_eq!(history.get("party.png"), Some(2));
    assert_eq!(history.get("grin"), Some(3));
}

#[test]
fn a_picked_unicode_emoji_is_copied_as_text_and_counted_by_name() {
    let step = decide("😀 grin", DIR, CopyMode::Path).unwrap().unwrap();
    assert_eq!(step.selection, unicode("😀", "grin"));
    assert_eq!(step.action, ClipboardAction::Text { text: "😀".to_string() });
    assert_eq!(step.action.arguments(), vec!["😀", "-t", "text/plain"]);
    let mut history = History::new();
    assert_eq!(complete(&mut history, &step.selection), Some(1));
    assert_eq!(history.get("grin"), Some(1));
    assert_eq!(history.get("😀"), None);
    assert_eq!(complete(&mut history, &step.selection), Some(2));
    assert_eq!(history.get("grin"), Some(2));
    assert_eq!(history.len(), 1);
}

#[test]
fn a_picked_image_is_copied_as_bytes_when_asked() {
    let step = decide("party.png", DIR, CopyMode::from_arg(Some("False"))).unwrap().unwrap();
    assert_eq!(
        step.action,
        ClipboardAction::Image { path: "/home/u/assets/emojis/party.png".to_string() }
    );
}

#[test]
fn output_that_resolves_to_nothing_is_a_failure() {
    assert_eq!(decide("grin\n", DIR, CopyMode::Path), Err(Failure::InvalidSelection));
}

#[test]
fn a_full_count_is_not_counted_further() {
    let mut history = History::new();
    history.insert("grin".to_string(), u32::MAX);
    assert_eq!(complete(&mut history, &unicode("😀", "grin")), None);
    assert_eq!(history.get("grin"), Some(u32::MAX));
}

#[test]
fn the_notification_reports_the_status() {
    assert_eq!(
        notification_arguments("exit status: 0"),
        vec!["Copied: exit status: 0", "-t", "1000"]
    );
    assert_eq!(notification_arguments(""), vec!["Copied: ", "-t", "1000"]);
}

#[test]
fn the_fixed_places_are_under_the_home_directory() {
    assert_eq!(PNG_EMOJIS_PATH, "~/assets/emojis");
    assert_eq!(DATA_FOLDER, "~/.local/share/rustoji");
    assert_eq!(HISTORY_FILE, "history.json");
    assert_eq!(CATALOG_FILE, "emojis.json");
    assert!(UNICODE_EMOJIS_FILE_URL.starts_with("https://"));
    assert!(UNICODE_EMOJIS_FILE_URL.ends_with("/emojis.json"));
}

#[test]
fn a_configuration_puts_the_stores_in_the_data_directory() {
    let config = Config::new("/home/u/assets/emojis".to_string(), "/home/u/.local/share/rustoji".to_string());
    assert_eq!(config.png_dir, "/home/u/assets/emojis");
    assert_eq!(config.data_dir, "/home/u/.local/share/rustoji");
    assert_eq!(config.history_file, "/home/u/.local/share/rustoji/history.json");
    assert_eq!(config.catalog_file, "/home/u/.local/share/rustoji/emojis.json");
    assert_eq!(config.catalog_url, UNICODE_EMOJIS_FILE_URL);
    assert_eq!(config.on_missing, OnMissing::Fail);
}

#[test]
fn the_catalog_is_fetched_to_its_store() {
    let mut config = Config::new("/p".to_string(), "/d".to_string());
    assert_eq!(
        config.fetch_arguments(),
        Some(vec![UNICODE_EMOJIS_FILE_URL.to_string(), "-O".to_string(), "/d/emojis.json".to_string()])
    );
    config.catalog_url = String::new();
    assert_eq!(config.fetch_arguments(), None);
}

#[test]
fn the_located_configuration_has_the_home_directory_expanded() {
    match Config::locate() {
        Ok(config) => {
            assert!(!config.png_dir.starts_with('~'));
            assert!(!config.data_dir.starts_with('~'));
            assert!(config.png_dir.ends_with("/assets/emojis"));
            assert!(config.data_dir.ends_with("/.local/share/rustoji"));
            assert_eq!(config.history_file, format!("{}/history.json", config.data_dir));
            assert_eq!(config.catalog_file, format!("{}/emojis.json", config.data_dir));
            assert_eq!(config.on_missing, OnMissing::Fail);
        }
        Err(failure) => {
            assert!(matches!(failure, Failure::HomeNotFound | Failure::PathNotUnicode));
        }
    }
}
