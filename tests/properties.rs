use rssettings::{FileRead, Settings, GLOBAL_SECTION, MESSAGES_NUMBER};

fn lines(text: &str) -> Vec<String> {
    text.lines().map(|l| l.to_string()).collect()
}

fn loaded(text: &str) -> Settings {
    let mut settings = Settings::new();
    assert_eq!(Ok(()), settings.load("conf.ini", FileRead::Complete(lines(text))));
    settings
}

const CANONICAL: &str = "# typed values
[GLOBAL]
bool_value = true # kept
i32_value = -100

[NET]
host = example.org
";

#[test]
fn save_without_change_gives_back_the_lines() {
    let settings = loaded(CANONICAL);
    assert_eq!(lines(CANONICAL), settings.rewrite_lines(lines(CANONICAL)));
}

#[test]
fn save_after_set_rewrites_only_that_line() {
    let mut settings = loaded(CANONICAL);
    assert!(settings.get(GLOBAL_SECTION, "bool_value", false).value);
    assert_eq!(Ok(()), settings.set(GLOBAL_SECTION, "bool_value", false));
    let r = settings.get(GLOBAL_SECTION, "bool_value", true);
    assert_eq!(false, r.value);
    assert_eq!("", r.error);
    let out = settings.rewrite_lines(lines(CANONICAL));
    let mut expected = lines(CANONICAL);
    expected[2] = "bool_value = false # kept".to_string();
    assert_eq!(expected, out);
}

#[test]
fn save_writes_pairs_in_canonical_form() {
    let text = "[S]\nkey=value#note\nother   =   x";
    let settings = loaded(text);
    assert_eq!(
        vec!["[S]".to_string(), "key = value #note".to_string(), "other = x".to_string()],
        settings.rewrite_lines(lines(text))
    );
}

#[test]
fn save_reports_when_lines_are_missing() {
    let settings = loaded(CANONICAL);
    assert!(settings.covers_lines(7));
    assert!(!settings.covers_lines(6));
}

#[test]
fn same_key_in_two_sections_is_no_duplicate() {
    let settings = loaded("[A]\nk = 1\n[B]\nk = 2\n");
    assert_eq!(1, settings.get("A", "k", 0).value);
    assert_eq!(2, settings.get("B", "k", 0).value);
}

#[test]
fn duplicate_after_global_header_merge() {
    let mut settings = Settings::new();
    assert_eq!(
        Err("Duplicated key 'k' at line '3' previously defined at line '1' of settings file: 'g.ini'".to_string()),
        settings.load("g.ini", FileRead::Complete(lines("k = 1\n[GLOBAL]\nk = 2\n")))
    );
}

#[test]
fn pairs_before_a_header_and_under_global_header_merge() {
    let settings = loaded("a = 1\n[X]\nb = 2\n[GLOBAL]\nc = 3\n");
    assert_eq!(1, settings.get(GLOBAL_SECTION, "a", 0).value);
    assert_eq!(3, settings.get(GLOBAL_SECTION, "c", 0).value);
    assert_eq!(2, settings.sections().len());
}

#[test]
fn header_and_pair_with_trailing_comments() {
    let settings = loaded("  [ S ] # header\n  key = some value  # c = d\n\n   # only a comment\n");
    assert_eq!(Ok("some value".to_string()), settings.lookup(" S ", "key"));
}

#[test]
fn further_assign_tags_are_dropped_and_value_may_be_empty() {
    let settings = loaded("[S]\nurl = a=b = c\nempty =\n");
    assert_eq!(Ok("ab  c".to_string()), settings.lookup("S", "url"));
    assert_eq!(Ok("".to_string()), settings.lookup("S", "empty"));
}

#[test]
fn missing_key_line_number() {
    let mut settings = Settings::new();
    assert_eq!(
        Err("Missing key at line '2' of settings file: 'p.ini'".to_string()),
        settings.load("p.ini", FileRead::Complete(lines("[S]\n= v\n")))
    );
}

#[test]
fn malformed_lines_cite_their_line() {
    let mut settings = Settings::new();
    assert_eq!(
        Err("Missing end section tag ']' at line '4' of settings file: 'p.ini'".to_string()),
        settings.load("p.ini", FileRead::Complete(lines("\n\n# x\n[S # no end\n")))
    );
    assert_eq!(
        Err("Missing start section tag '[' at line '1' of settings file: 'p.ini'".to_string()),
        settings.load("p.ini", FileRead::Complete(lines("S]\n")))
    );
    assert_eq!(
        Err("Missing assign tag '=' at line '2' of settings file: 'p.ini'".to_string()),
        settings.load("p.ini", FileRead::Complete(lines("a = 1\njust words\n")))
    );
}

#[test]
fn failed_load_leaves_store_empty_and_reloadable() {
    let mut settings = Settings::new();
    assert!(settings.load("p.ini", FileRead::Complete(lines("a = 1\nb\n"))).is_err());
    assert!(!settings.is_initialize());
    assert_eq!(0, settings.sections().len());
    assert_eq!(Ok(()), settings.load("q.ini", FileRead::Complete(lines("a = 2\n"))));
    assert_eq!(2, settings.get(GLOBAL_SECTION, "a", 0).value);
}

#[test]
fn second_load_is_refused_and_keeps_data() {
    let mut settings = loaded("a = 1\n");
    assert_eq!(
        Err("Settings already initialized using file: 'conf.ini'".to_string()),
        settings.load("other.ini", FileRead::Complete(lines("a = 2\n")))
    );
    assert_eq!(1, settings.get(GLOBAL_SECTION, "a", 0).value);
}

#[test]
fn open_and_read_errors() {
    let mut settings = Settings::new();
    assert_eq!(
        Err("Error opening settings file: 'x.ini': 'denied'".to_string()),
        settings.load("x.ini", FileRead::OpenError("denied".to_string()))
    );
    assert_eq!(
        Err("Error reading file: 'x.ini' at line 3: 'boom'".to_string()),
        settings.load("x.ini", FileRead::ReadError(lines("a = 1\nb = 2\n"), "boom".to_string()))
    );
    assert_eq!(
        Err("Missing assign tag '=' at line '2' of settings file: 'x.ini'".to_string()),
        settings.load("x.ini", FileRead::ReadError(lines("a = 1\nb\n"), "boom".to_string()))
    );
}

#[test]
fn absent_section_or_key_gives_default() {
    let settings = loaded("[S]\nk = 5\n");
    let r = settings.get("T", "k", 42i64);
    assert_eq!(42, r.value);
    assert_eq!("Section 'T' not found", r.error);
    let r = settings.get("S", "j", 43i64);
    assert_eq!(43, r.value);
    assert_eq!("Section 'S' key 'j' not found", r.error);
}

#[test]
fn set_then_get_round_trips() {
    let mut settings = loaded("[S]\na = 0\nb = 0\nc = x\n");
    assert_eq!(Ok(()), settings.set("S", "a", i64::MIN));
    assert_eq!(i64::MIN, settings.get("S", "a", 0i64).value);
    assert_eq!(Ok(()), settings.set("S", "b", u64::MAX));
    assert_eq!(u64::MAX, settings.get("S", "b", 0u64).value);
    assert_eq!(Ok(()), settings.set("S", "c", "a b # c".to_string()));
    assert_eq!("a b # c", settings.get("S", "c", String::new()).value);
    assert_eq!(Err("Section 'S' key 'd' not found".to_string()), settings.set("S", "d", 1));
}

#[test]
fn parse_reads_numbers_and_reports_errors() {
    let settings = loaded("[S]\nn = 42\nm = -7\nbad = 4x\n");
    let r = settings.get("S", "n", 0u8);
    assert_eq!((42u8, String::new()), (r.value, r.error));
    assert_eq!(-7, settings.get("S", "m", 0i16).value);
    let r = settings.get("S", "bad", 9u16);
    assert_eq!(9, r.value);
    assert_eq!(
        format!("Section 'S' key 'bad', Parsing error: '{:#?}'", "4x".parse::<u16>().err().unwrap()),
        r.error
    );
}

#[test]
fn empty_header_names_global_section() {
    let settings = loaded("[X]\na = 1\n[]\nb = 2\n");
    assert_eq!(2, settings.get(GLOBAL_SECTION, "b", 0).value);
}

#[test]
fn templates_with_more_placeholders_than_parameters() {
    let mut t = ["{}"; MESSAGES_NUMBER];
    t[6] = "no section {} here {}";
    let settings = Settings::new_locale_messages(&t);
    assert_eq!("no section S here {}", settings.get("S", "k", 0).error);
    assert_eq!("x", settings.format_message(0, &vec!["x".to_string(), "y".to_string()]));
    assert_eq!("no section {} here {}", settings.format_message(6, &vec![]));
}

#[test]
fn dump_of_an_empty_store() {
    let settings = Settings::new();
    assert_eq!(
        "Settings path: \n====================================================================\n",
        settings.to_string()
    );
}

#[test]
fn parameters_are_not_searched_for_placeholders() {
    let mut t = ["{}"; MESSAGES_NUMBER];
    t[0] = "{} {}";
    let settings = Settings::new_locale_messages(&t);
    assert_eq!("{} x", settings.format_message(0, &vec!["{}".to_string(), "x".to_string()]));
}

#[test]
fn duplicated_key_holding_placeholder_text() {
    let mut settings = Settings::new();
    assert_eq!(
        Err("Duplicated key 'a{}' at line '2' previously defined at line '1' of settings file: 'p.ini'".to_string()),
        settings.load("p.ini", FileRead::Complete(lines("a{} = 1\na{} = 2\n")))
    );
}

#[test]
fn empty_path_cannot_be_loaded() {
    let mut settings = Settings::new();
    assert_eq!(
        Err("Error opening settings file: '': 'No such file or directory (os error 2)'".to_string()),
        settings.load("", FileRead::OpenError("No such file or directory (os error 2)".to_string()))
    );
    assert!(!settings.is_initialize());
    assert_eq!(Ok(()), settings.load("p.ini", FileRead::Complete(lines("a = 1\n"))));
    assert!(settings.is_initialize());
}

#[test]
fn integer_parse_signs_and_range() {
    let settings = loaded("[S]\na = +7\nb = -7\nc = 300\nd = \n");
    assert_eq!(7u8, settings.get("S", "a", 0u8).value);
    assert_eq!(9u8, settings.get("S", "b", 9u8).value);
    assert_eq!(-7i8, settings.get("S", "b", 0i8).value);
    assert_eq!(9u8, settings.get("S", "c", 9u8).value);
    assert_eq!(300u16, settings.get("S", "c", 0u16).value);
    assert!(!settings.get("S", "d", 0u32).error.is_empty());
}
