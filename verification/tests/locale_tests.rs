use guessing_game::json::JsonErrorCategory;
use guessing_game::locales::{
    add_locale_title, choose_locale, contains_text, format_once, format_twice, locale_error_message,
    locale_file_path, locale_name_from_file_name, locale_names, FormatError, LocaleChoice,
    LocaleTable, LocaleTitleError,
};

fn s(x: &str) -> String {
    x.to_string()
}

#[test]
fn format_once_fills_the_placeholder() {
    assert_eq!(format_once("You won in {} tries!", "3"), Ok(s("You won in 3 tries!")));
    assert_eq!(format_once("{}", "abc"), Ok(s("abc")));
    assert_eq!(format_once("{{}}", "x"), Ok(s("{x}")));
    assert_eq!(format_once("The number was {}.", "{}"), Ok(s("The number was {}.")));
}

#[test]
fn format_once_refuses_templates_without_one_placeholder() {
    assert_eq!(
        format_once("No placeholder", "3"),
        Err(FormatError { template: s("No placeholder") })
    );
    assert_eq!(format_once("{} and {}", "3"), Err(FormatError { template: s("{} and {}") }));
    assert_eq!(format_once("{1}", "3"), Err(FormatError { template: s("{1}") }));
}

#[test]
fn format_twice_fills_both_placeholders() {
    assert_eq!(
        format_twice("between {1} and {2}", ["1", "100"]),
        Ok(s("between 1 and 100"))
    );
    assert_eq!(format_twice("{2} before {1}", ["a", "b"]), Ok(s("b before a")));
    assert_eq!(format_twice("{1}{2}", ["x{2}", "y"]), Ok(s("xyy")));
}

#[test]
fn format_twice_refuses_missing_or_repeated_placeholders() {
    assert_eq!(format_twice("only {1}", ["a", "b"]), Err(FormatError { template: s("only {1}") }));
    assert_eq!(format_twice("only {2}", ["a", "b"]), Err(FormatError { template: s("only {2}") }));
    assert_eq!(
        format_twice("{1} {1} {2}", ["a", "b"]),
        Err(FormatError { template: s("{1} {1} {2}") })
    );
    assert_eq!(
        format_twice("{1} {2} {2}", ["a", "b"]),
        Err(FormatError { template: s("{1} {2} {2}") })
    );
}

#[test]
fn locale_file_names() {
    assert_eq!(locale_name_from_file_name("en-US.json"), Some(s("en-US")));
    assert_eq!(locale_name_from_file_name("el-GR.json"), Some(s("el-GR")));
    assert_eq!(locale_name_from_file_name("éü-ÉÜ.json"), Some(s("éü-ÉÜ")));
    assert_eq!(locale_name_from_file_name("EN-us.json"), None);
    assert_eq!(locale_name_from_file_name("en_US.json"), None);
    assert_eq!(locale_name_from_file_name("en-US.txt"), None);
    assert_eq!(locale_name_from_file_name("en-US.jsonx"), None);
    assert_eq!(locale_name_from_file_name("template.json"), None);
    assert_eq!(locale_name_from_file_name("README.md"), None);
    assert_eq!(locale_name_from_file_name("e1-US.json"), None);
}

#[test]
fn locale_names_keep_the_order_of_the_files() {
    let files = vec![s("fr-FR.json"), s("template.json"), s("en-US.json"), s("README.md")];
    assert_eq!(locale_names(&files), vec![s("fr-FR"), s("en-US")]);
    assert_eq!(locale_names(&vec![]), Vec::<String>::new());
}

#[test]
fn finding_a_locale_in_a_list() {
    let list = vec![s("fr-FR"), s("en-US")];
    assert!(contains_text(&list, &s("en-US")));
    assert!(!contains_text(&list, &s("en-GB")));
    assert!(!contains_text(&vec![], &s("en-US")));
}

#[test]
fn locale_table_reads_back_what_was_inserted() {
    let mut t = LocaleTable::new();
    assert!(t.is_empty());
    t.insert(s("en-US"), s("\"English\""));
    t.insert(s("el-GR"), s("\"Ελληνικά\""));
    assert_eq!(t.len(), 2);
    assert_eq!(t.get(&s("en-US")), Some(&s("\"English\"")));
    assert_eq!(t.get(&s("el-GR")), Some(&s("\"Ελληνικά\"")));
    assert_eq!(t.get(&s("fr-FR")), None);
    t.insert(s("en-US"), s("\"American English\""));
    assert_eq!(t.len(), 2);
    assert_eq!(t.get(&s("en-US")), Some(&s("\"American English\"")));
    assert_eq!(t.get(&s("el-GR")), Some(&s("\"Ελληνικά\"")));
    assert_eq!(
        t.listing_lines(),
        vec![s("(en-US): \"American English\""), s("(el-GR): \"Ελληνικά\"")]
    );
}

#[test]
fn choosing_a_locale() {
    let mut t = LocaleTable::new();
    t.insert(s("en-US"), s("\"English\""));
    assert_eq!(choose_locale(&t, "en-US\n"), LocaleChoice::Chosen(s("en-US")));
    assert_eq!(choose_locale(&t, "  en-US  "), LocaleChoice::Chosen(s("en-US")));
    assert_eq!(choose_locale(&t, "q\n"), LocaleChoice::Quit);
    assert_eq!(choose_locale(&t, "Q\n"), LocaleChoice::Unknown);
    assert_eq!(choose_locale(&t, "en-us\n"), LocaleChoice::Unknown);
    assert_eq!(choose_locale(&t, "\n"), LocaleChoice::Unknown);
    t.insert(s("q"), s("\"Q\""));
    assert_eq!(choose_locale(&t, "q"), LocaleChoice::Quit);
}

#[test]
fn adding_locale_titles_from_json() {
    let mut t = LocaleTable::new();
    let text = "{\n  // the title\n  \"lang_title\": \"English\", /* more */ \"x\": 1\n}";
    assert_eq!(add_locale_title(&mut t, &s("en-US"), text), Ok(()));
    assert_eq!(t.get(&s("en-US")), Some(&s("\"English\"")));
    let quoted = "{\"lang_title\": \"say \\\"hi\\\"\"}";
    assert_eq!(add_locale_title(&mut t, &s("xx-XX"), quoted), Ok(()));
    assert_eq!(t.get(&s("xx-XX")), Some(&s("\"say \\\"hi\\\"\"")));
    assert_eq!(t.len(), 2);
}

#[test]
fn locales_without_a_title_are_passed_over() {
    let mut t = LocaleTable::new();
    assert_eq!(add_locale_title(&mut t, &s("fr-FR"), "{}"), Ok(()));
    assert_eq!(add_locale_title(&mut t, &s("fr-FR"), "{\"lang_title\": 3}"), Ok(()));
    assert_eq!(add_locale_title(&mut t, &s("fr-FR"), "[\"lang_title\"]"), Ok(()));
    assert!(t.is_empty());
}

#[test]
fn unreadable_locale_files_are_reported() {
    let mut t = LocaleTable::new();
    assert_eq!(
        add_locale_title(&mut t, &s("fr-FR"), "{\"lang_title\": \"F\"} /* open"),
        Err(LocaleTitleError::Unreadable)
    );
    assert_eq!(
        add_locale_title(&mut t, &s("fr-FR"), "{\"lang_title\" \"F\"}"),
        Err(LocaleTitleError::Json(JsonErrorCategory::Syntax))
    );
    assert_eq!(
        add_locale_title(&mut t, &s("fr-FR"), "{\"lang_title\": "),
        Err(LocaleTitleError::Json(JsonErrorCategory::Eof))
    );
    assert!(t.is_empty());
}

#[test]
fn locale_file_paths() {
    assert_eq!(locale_file_path("locales", "en-US"), "locales/en-US.json");
    assert_eq!(locale_file_path("", "x"), "/x.json");
}

#[test]
fn locale_error_messages() {
    assert_eq!(
        locale_error_message(JsonErrorCategory::Syntax, "en-US"),
        "There was an error in the syntax of en-US locale. Exiting..."
    );
    assert_eq!(
        locale_error_message(JsonErrorCategory::Eof, "en-US"),
        "Reached the end of the file while still waiting for more data. Exiting..."
    );
    assert!(locale_error_message(JsonErrorCategory::Data, "en-US").starts_with(
        "There was an error embedding the extracted struct into the Localization struct"
    ));
    assert!(locale_error_message(JsonErrorCategory::Io, "en-US")
        .starts_with("Couldn't read bytes due to an IO error."));
}

#[test]
fn a_listed_locale_is_read_from_its_own_file() {
    for file in ["en-US.json", "el-GR.json"] {
        let name = locale_name_from_file_name(file).unwrap();
        assert_eq!(locale_file_path("locales", &name), format!("locales/{file}"));
    }
}

#[test]
fn only_locales_with_a_string_title_are_offered() {
    let mut t = LocaleTable::new();
    assert_eq!(add_locale_title(&mut t, &s("en-US"), "{\"lang_title\": \"English\"}"), Ok(()));
    assert_eq!(add_locale_title(&mut t, &s("fr-FR"), "{\"lang_title\": 1}"), Ok(()));
    assert_eq!(add_locale_title(&mut t, &s("de-DE"), "{}"), Ok(()));
    assert_eq!(t.listing_lines(), vec![s("(en-US): \"English\"")]);
    assert_eq!(choose_locale(&t, "fr-FR\n"), LocaleChoice::Unknown);
    assert_eq!(choose_locale(&t, "English\n"), LocaleChoice::Unknown);
    assert_eq!(choose_locale(&t, "en-US\n"), LocaleChoice::Chosen(s("en-US")));
    assert_eq!(choose_locale(&t, " q \n"), LocaleChoice::Quit);
}
