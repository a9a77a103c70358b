use rssettings::{FileRead, Settings, SettingsValue, GLOBAL_SECTION, MESSAGES_NUMBER};

const START_SECTION_TAG: &str = "[";
const END_SECTION_TAG: &str = "]";
const ASSIGN_TAG: &str = "=";

const MISSING_START_SECTION_TAG_INI: &str = "# settings with a header that lacks its opening bracket
[GLOBAL]
key1 = value1
key2 = value2

[SECTION_1]
SECTION_2]
key3 = value3
";

const MISSING_END_SECTION_TAG_INI: &str = "# settings with a header that lacks its closing bracket
[GLOBAL]
key1 = value1
key2 = value2

[SECTION_1]
key3 = value3
key4 = value4
# the next header is broken

[SECTION_2
key5 = value5
";

const MISSING_ASSIGN_TAG_INI: &str = "[GLOBAL]
key1 = value1
key2 value2
";

const MISSING_KEY_INI: &str = "[GLOBAL]
key1 = value1
key2 = value2
# a value without its key
 = value3
";

const DUPLICATED_KEY_INI: &str = "[GLOBAL]
key1 = value1
key2 = value2
# key1 again
key1 = value3
";

const KEY_VALUE_TO_GLOBAL_INI: &str = "key1 = true
key2 = 123
[SECTION_1]
key1 = def
[]
key3 = 234.35
key4 = abc
";

const SET_GET_ERRORS_INI: &str = "[GENERAL]
enabled = ciao
integer_value = a123
float_value = 123a.35

[LOG]
enabled = true
";

const NO_SECTION_NAME_INI: &str = "[] # no name: the global section
title = Test empty section name
";

const SETTINGS_INI: &str = "# typed values
[GLOBAL]
bool_value = true
i32_value = -100
u32_value = 100
i64_value = -200
u64_value = 200
isize_value = -300
usize_value = 300
f32_value = -400.32
f64_value = 400.64
string_value = The quick brown fox jump over the lazy dog # a comment
";

fn lines(text: &str) -> Vec<String> {
    text.lines().map(|l| l.to_string()).collect()
}

fn file(text: &str) -> FileRead {
    FileRead::Complete(lines(text))
}

/// A typed lookup for any type that `str::parse` reads, floats included.
fn get_parsed<T: std::str::FromStr>(settings: &Settings, section: &str, key: &str, default: T) -> SettingsValue<T>
where
    T::Err: std::fmt::Debug,
{
    match settings.lookup(section, key) {
        Ok(text) => {
            let parsed = match text.parse::<T>() {
                Ok(v) => Ok(v),
                Err(e) => Err(format!("{:#?}", e)),
            };
            settings.parsed_value(section, key, default, parsed)
        }
        Err(error) => SettingsValue { value: default, error },
    }
}

#[test]
fn load_errors() {
    let mut settings_file_path = "goofy.ini";
    let mut settings = Settings::new();
    assert_ne!(
        Result::Ok(()),
        settings.load(settings_file_path, FileRead::OpenError("No such file or directory (os error 2)".to_string()))
    );
    settings_file_path = "test_files";
    assert_ne!(
        Result::Ok(()),
        settings.load(settings_file_path, FileRead::ReadError(vec![], "Is a directory (os error 21)".to_string()))
    );
}

#[test]
fn missing_start_section_tag() {
    let settings_file_path = "test_files/missing_start_section_tag.ini";
    let mut settings = Settings::new();
    let error = Result::Err(format!(
        "Missing start section tag '{}' at line '{}' of settings file: '{}'",
        START_SECTION_TAG, 7, settings_file_path
    ));
    assert_eq!(error, settings.load(settings_file_path, file(MISSING_START_SECTION_TAG_INI)));
}

#[test]
fn missing_end_section_tag() {
    let settings_file_path = "test_files/missing_end_section_tag.ini";
    let mut settings = Settings::new();
    let error = Result::Err(format!(
        "Missing end section tag '{}' at line '{}' of settings file: '{}'",
        END_SECTION_TAG, 11, settings_file_path
    ));
    assert_eq!(error, settings.load(settings_file_path, file(MISSING_END_SECTION_TAG_INI)));
}

#[test]
fn missing_assign_tag() {
    let settings_file_path = "test_files/missing_assign_tag.ini";
    let mut settings = Settings::new();
    let error = Result::Err(format!(
        "Missing assign tag '{}' at line '3' of settings file: '{}'",
        ASSIGN_TAG, settings_file_path
    ));
    assert_eq!(error, settings.load(settings_file_path, file(MISSING_ASSIGN_TAG_INI)));
}

#[test]
fn missing_key() {
    let settings_file_path = "test_files/missing_key.ini";
    let mut settings = Settings::new();
    let error = Result::Err(format!("Missing key at line '5' of settings file: '{}'", settings_file_path));
    assert_eq!(error, settings.load(settings_file_path, file(MISSING_KEY_INI)));
}

#[test]
fn duplicated_key() {
    let settings_file_path = "test_files/duplicated_key.ini";
    let mut settings = Settings::new();
    let error = Result::Err(format!(
        "Duplicated key 'key1' at line '5' previously defined at line '2' of settings file: '{}'",
        settings_file_path
    ));
    assert_eq!(error, settings.load(settings_file_path, file(DUPLICATED_KEY_INI)));
}

#[test]
fn key_value_to_global() {
    let settings_file_path = "test_files/key_value_to_global.ini";
    let mut settings = Settings::new();
    assert_eq!(Result::Ok(()), settings.load(settings_file_path, file(KEY_VALUE_TO_GLOBAL_INI)));

    let settings_dump = "Settings path: test_files/key_value_to_global.ini
[GLOBAL]
key: key1, value: true
key: key2, value: 123
key: key3, value: 234.35
key: key4, value: abc

[SECTION_1]
key: key1, value: def

====================================================================
"
    .to_string();

    assert_eq!(settings_dump, settings.to_string());
}

#[test]
fn set_get_errors() {
    let settings_file_path = "test_files/set_get_errors.ini";
    let mut settings = Settings::new();
    assert_eq!(Result::Ok(()), settings.load(settings_file_path, file(SET_GET_ERRORS_INI)));
    assert_eq!("Section 'GENERLA' not found".to_string(), settings.get("GENERLA", "enabled", false).error);
    assert_eq!("Section 'GENERAL' key 'enable' not found".to_string(), settings.get("GENERAL", "enable", false).error);
    let error = "a123".parse::<i32>().err().unwrap();
    let mut error_as_string = format!("Section 'GENERAL' key 'integer_value', Parsing error: '{:#?}'", error);
    assert_eq!(error_as_string, settings.get("GENERAL", "integer_value", 10).error);

    let error = "123a.35".parse::<f32>().err().unwrap();
    error_as_string = format!("Section 'GENERAL' key 'float_value', Parsing error: '{:#?}'", error);
    assert_eq!(error_as_string, get_parsed(&settings, "GENERAL", "float_value", -1.0f32).error);

    let error = "ciao".parse::<bool>().err().unwrap();
    error_as_string = format!("Section 'GENERAL' key 'enabled', Parsing error: '{:#?}'", error);
    assert_eq!(error_as_string, settings.get("GENERAL", "enabled", true).error);

    let mut error = "Section 'GLOBAL' not found".to_string();
    assert_eq!(Result::Err(error), settings.set(GLOBAL_SECTION, "enabled", true));
    error = "Section 'GENERAL' key 'enable' not found".to_string();
    assert_eq!(Result::Err(error), settings.set("GENERAL", "enable", false));
}

#[test]
fn no_section_name() {
    let settings_file_path = "test_files/no_section_name.ini";
    let mut settings = Settings::new();
    assert_eq!(Result::Ok(()), settings.load(settings_file_path, file(NO_SECTION_NAME_INI)));
    let result = settings.get(GLOBAL_SECTION, "title", "???".to_string());
    assert!(result.error.len() == 0 && result.value == "Test empty section name".to_string());
}

#[test]
fn get_set_ok() {
    let settings_file_path = "test_files/settings.ini";
    let mut settings = Settings::new();
    assert_eq!(Result::Ok(()), settings.load(settings_file_path, file(SETTINGS_INI)));

    let mut result = settings.get(GLOBAL_SECTION, "bool_value", false);
    assert!(result.error.len() == 0 && true == result.value);
    assert!(Result::Ok(()) == settings.set(GLOBAL_SECTION, "bool_value", false));
    result = settings.get(GLOBAL_SECTION, "bool_value", true);
    assert!(result.error.len() == 0 && false == result.value);
    assert!(Result::Ok(()) == settings.set(GLOBAL_SECTION, "bool_value", true));
    result = settings.get(GLOBAL_SECTION, "bool_value", false);
    assert!(result.error.len() == 0 && true == result.value);

    let mut result = settings.get(GLOBAL_SECTION, "i32_value", -1000i32);
    assert!(result.error.len() == 0 && -100i32 == result.value);
    assert!(Result::Ok(()) == settings.set(GLOBAL_SECTION, "i32_value", -1000i32));
    result = settings.get(GLOBAL_SECTION, "i32_value", -100i32);
    assert!(result.error.len() == 0 && -1000i32 == result.value);
    assert!(Result::Ok(()) == settings.set(GLOBAL_SECTION, "i32_value", -100i32));
    result = settings.get(GLOBAL_SECTION, "i32_value", -1000i32);
    assert!(result.error.len() == 0 && -100i32 == result.value);

    let mut result = settings.get(GLOBAL_SECTION, "u32_value", 1000u32);
    assert!(result.error.len() == 0 && 100u32 == result.value);
    assert!(Result::Ok(()) == settings.set(GLOBAL_SECTION, "u32_value", 1000u32));
    result = settings.get(GLOBAL_SECTION, "u32_value", 100u32);
    assert!(result.error.len() == 0 && 1000u32 == result.value);
    assert!(Result::Ok(()) == settings.set(GLOBAL_SECTION, "u32_value", 100u32));
    result = settings.get(GLOBAL_SECTION, "u32_value", 1000u32);
    assert!(result.error.len() == 0 && 100u32 == result.value);

    let mut result = settings.get(GLOBAL_SECTION, "i64_value", -2000i64);
    assert!(result.error.len() == 0 && -200i64 == result.value);
    assert!(Result::Ok(()) == settings.set(GLOBAL_SECTION, "i64_value", -2000i64));
    result = settings.get(GLOBAL_SECTION, "i64_value", -200i64);
    assert!(result.error.len() == 0 && -2000i64 == result.value);
    assert!(Result::Ok(()) == settings.set(GLOBAL_SECTION, "i64_value", -200i64));
    result = settings.get(GLOBAL_SECTION, "i64_value", -2000i64);
    assert!(result.error.len() == 0 && -200i64 == result.value);

    let mut result = settings.get(GLOBAL_SECTION, "u64_value", 2000u64);
    assert!(result.error.len() == 0 && 200u64 == result.value);
    assert!(Result::Ok(()) == settings.set(GLOBAL_SECTION, "u64_value", 2000u64));
    result = settings.get(GLOBAL_SECTION, "u64_value", 200u64);
    assert!(result.error.len() == 0 && 2000u64 == result.value);
    assert!(Result::Ok(()) == settings.set(GLOBAL_SECTION, "u64_value", 200u64));
    result = settings.get(GLOBAL_SECTION, "u64_value", 2000u64);
    assert!(result.error.len() == 0 && 200u64 == result.value);

    let mut result = settings.get(GLOBAL_SECTION, "isize_value", -3000isize);
    assert!(result.error.len() == 0 && -300isize == result.value);
    assert!(Result::Ok(()) == settings.set(GLOBAL_SECTION, "isize_value", -3000isize));
    result = settings.get(GLOBAL_SECTION, "isize_value", -300isize);
    assert!(result.error.len() == 0 && -3000isize == result.value);
    assert!(Result::Ok(()) == settings.set(GLOBAL_SECTION, "isize_value", -300isize));
    result = settings.get(GLOBAL_SECTION, "isize_value", -3000isize);
    assert!(result.error.len() == 0 && -300isize == result.value);

    let mut result = settings.get(GLOBAL_SECTION, "usize_value", 3000usize);
    assert!(result.error.len() == 0 && 300usize == result.value);
    assert!(Result::Ok(()) == settings.set(GLOBAL_SECTION, "usize_value", 3000usize));
    result = settings.get(GLOBAL_SECTION, "usize_value", 300usize);
    assert!(result.error.len() == 0 && 3000usize == result.value);
    assert!(Result::Ok(()) == settings.set(GLOBAL_SECTION, "usize_value", 300usize));
    result = settings.get(GLOBAL_SECTION, "usize_value", 3000usize);
    assert!(result.error.len() == 0 && 300usize == result.value);

    let mut result = get_parsed(&settings, GLOBAL_SECTION, "f32_value", -32.400f32);
    assert!(result.error.len() == 0 && -400.32f32 == result.value);
    assert!(Result::Ok(()) == settings.set(GLOBAL_SECTION, "f32_value", -32.400f32));
    result = get_parsed(&settings, GLOBAL_SECTION, "f32_value", -400.32f32);
    assert!(result.error.len() == 0 && -32.400f32 == result.value);
    assert!(Result::Ok(()) == settings.set(GLOBAL_SECTION, "f32_value", -400.32f32));
    result = get_parsed(&settings, GLOBAL_SECTION, "f32_value", -32.400f32);
    assert!(result.error.len() == 0 && -400.32f32 == result.value);

    let mut result = get_parsed(&settings, GLOBAL_SECTION, "f64_value", 64.400f64);
    assert!(result.error.len() == 0 && 400.64f64 == result.value);
    assert!(Result::Ok(()) == settings.set(GLOBAL_SECTION, "f64_value", 64.400f64));
    result = get_parsed(&settings, GLOBAL_SECTION, "f64_value", 400.64f64);
    assert!(result.error.len() == 0 && 64.400f64 == result.value);
    assert!(Result::Ok(()) == settings.set(GLOBAL_SECTION, "f64_value", 400.64f64));
    result = get_parsed(&settings, GLOBAL_SECTION, "f64_value", 64.400f64);
    assert!(result.error.len() == 0 && 400.64f64 == result.value);

    let mut result = settings.get(GLOBAL_SECTION, "string_value", "boh!!!".to_string());
    assert!(result.error.len() == 0 && "The quick brown fox jump over the lazy dog" == result.value);
    assert!(Result::Ok(()) == settings.set(GLOBAL_SECTION, "string_value", "boh!!!".to_string()));
    result = settings.get(GLOBAL_SECTION, "string_value", "???".to_string());
    assert!(result.error.len() == 0 && "boh!!!" == result.value);
    assert!(
        Result::Ok(())
            == settings.set(GLOBAL_SECTION, "string_value", "The quick brown fox jump over the lazy dog".to_string())
    );
    result = settings.get(GLOBAL_SECTION, "string_value", "boh!!!".to_string());
    assert!(result.error.len() == 0 && "The quick brown fox jump over the lazy dog" == result.value);

    let mut original_settings = Settings::new();
    let _ = original_settings.load("test_files/original_settings.ini", file(SETTINGS_INI));

    assert!(settings.sections() == original_settings.sections());
}

#[test]
fn settings_with_locale_messages() {
    const IT_SETTINGS_MESSAGES: [&str; MESSAGES_NUMBER] = [
        "Errore apertura file di settings: '{}': '{}'",
        "Manca il tag di inizio sezione '{}' alla linea '{}' del file di settings: '{}'",
        "Manca il tag di fine sezione '{}' alla linea '{}' del file di settings: '{}'",
        "Manca il tag di assegnazione '{}' alla linea '{}' del file di settings: '{}'",
        "Manca la chiave alla linea '{}' del file di settings: '{}'",
        "Chiave duplicata '{}' alla linea '{}' precedentemente definita alla linea '{}' del file di settings: '{}'",
        "Sezione '{}' non trovata",
        "Sezione '{}' chiave '{}' non trovata",
        "Sezione '{}' chiave '{}', Errore di analisi: '{}'",
        "Errore scrittura file: '{}': '{}'",
        "Errore lettura file: '{}' alla line {}: '{}'",
        "Settings già inizializzato utilizzando il file: '{}'",
    ];

    let mut settings = Settings::new_locale_messages(&IT_SETTINGS_MESSAGES);
    assert_eq!(
        Result::Err("Errore apertura file di settings: 'goofy.ini': 'Impossibile trovare il file specificato. (os error 2)'".to_string()),
        settings.load(
            "goofy.ini",
            FileRead::OpenError("Impossibile trovare il file specificato. (os error 2)".to_string())
        )
    );
    assert_eq!(Result::Err("Manca il tag di inizio sezione '[' alla linea '7' del file di settings: 'test_files/missing_start_section_tag.ini'".to_string()), settings.load("test_files/missing_start_section_tag.ini", file(MISSING_START_SECTION_TAG_INI)));
    assert_eq!(Result::Err("Manca il tag di fine sezione ']' alla linea '11' del file di settings: 'test_files/missing_end_section_tag.ini'".to_string()), settings.load("test_files/missing_end_section_tag.ini", file(MISSING_END_SECTION_TAG_INI)));
    assert_eq!(Result::Err("Manca il tag di assegnazione '=' alla linea '3' del file di settings: 'test_files/missing_assign_tag.ini'".to_string()), settings.load("test_files/missing_assign_tag.ini", file(MISSING_ASSIGN_TAG_INI)));
    assert_eq!(Result::Err("Manca la chiave alla linea '5' del file di settings: 'test_files/missing_key.ini'".to_string()), settings.load("test_files/missing_key.ini", file(MISSING_KEY_INI)));
    assert_eq!(Result::Err("Chiave duplicata 'key1' alla linea '5' precedentemente definita alla linea '2' del file di settings: 'test_files/duplicated_key.ini'".to_string()), settings.load("test_files/duplicated_key.ini", file(DUPLICATED_KEY_INI)));
    assert_eq!(Result::Ok(()), settings.load("test_files/set_get_errors.ini", file(SET_GET_ERRORS_INI)));
    assert_eq!("Sezione 'GENERALE' non trovata".to_string(), settings.get("GENERALE", "enabled", false).error);
    assert_eq!("Sezione 'GENERAL' chiave 'enable' non trovata".to_string(), settings.get("GENERAL", "enable", true).error);
    assert_eq!("Sezione 'GENERAL' chiave 'float_value', Errore di analisi: 'ParseFloatError {\n    kind: Invalid,\n}'".to_string(), get_parsed(&settings, "GENERAL", "float_value", -1.0f32).error);
    assert_eq!(Result::Err("Settings già inizializzato utilizzando il file: 'test_files/set_get_errors.ini'".to_string()), settings.load("test_files/settings.ini", file(SETTINGS_INI)));
    assert_eq!(true, settings.get("LOG", "enabled", false).value);
}
