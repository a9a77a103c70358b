//! The settings store: loading from the lines of a file, typed lookups and
//! updates, and the rewrite of the file's lines on save.

use vstd::prelude::*;
use vstd::string::*;
use core::fmt::Display;
use crate::line::{classify, global_name, global_string, line_type, LineKind, LineType};
use crate::message::{
    fill, fill_template, views, ALREADY_INITIALIZED, DUPLICATED_KEY, KEY_NOT_FOUND,
    MESSAGES_NUMBER, OPENING_FILE_ERROR, PARSING_ERROR, READING_FILE_ERROR, SECTION_NOT_FOUND,
};
use crate::section::{has_key, key_index, keys_unique, EntryView, Section, SectionView};
use crate::text::{chars_of, decimal, decimal_string, find_char, find_from, push_range, string_of};

verus! {

// ---------------------------------------------------------------------------
// The model of a set of sections

/// Whether a section named `name` is among `secs`.
pub open spec fn has_section(secs: Seq<SectionView>, name: Seq<char>) -> bool {
    exists|i: int| 0 <= i < secs.len() && #[trigger] secs[i].name == name
}

/// The position of the section named `name` (meaningful when `has_section`).
pub open spec fn section_index(secs: Seq<SectionView>, name: Seq<char>) -> int {
    choose|i: int| 0 <= i < secs.len() && #[trigger] secs[i].name == name
}

pub open spec fn names_unique(secs: Seq<SectionView>) -> bool {
    forall|i: int, j: int|
        0 <= i < secs.len() && 0 <= j < secs.len() && #[trigger] secs[i].name
            == #[trigger] secs[j].name ==> i == j
}

/// Every entry of `secs` comes from a line between 1 and `n`.
pub open spec fn lines_within(secs: Seq<SectionView>, n: nat) -> bool {
    forall|i: int, j: int|
        0 <= i < secs.len() && 0 <= j < secs[i].entries.len() ==> 1 <= #[trigger] secs[i].entries[j].line <= n
}

/// No two entries of `secs` come from the same line.
pub open spec fn lines_distinct(secs: Seq<SectionView>) -> bool {
    forall|i1: int, j1: int, i2: int, j2: int|
        0 <= i1 < secs.len() && 0 <= j1 < secs[i1].entries.len() && 0 <= i2 < secs.len() && 0
            <= j2 < secs[i2].entries.len() && #[trigger] secs[i1].entries[j1].line
            == #[trigger] secs[i2].entries[j2].line ==> i1 == i2 && j1 == j2
}

/// Section names are unique, keys are unique within a section, and each
/// entry has a line of its own.
pub open spec fn sections_wf(secs: Seq<SectionView>) -> bool {
    &&& names_unique(secs)
    &&& forall|i: int| 0 <= i < secs.len() ==> keys_unique(#[trigger] secs[i].entries)
    &&& lines_distinct(secs)
    &&& forall|i: int, j: int|
        0 <= i < secs.len() && 0 <= j < secs[i].entries.len() ==> 1 <= #[trigger] secs[i].entries[j].line
}

pub proof fn lemma_section_index(secs: Seq<SectionView>, name: Seq<char>, i: int)
    requires
        names_unique(secs),
        0 <= i < secs.len(),
        secs[i].name == name,
    ensures
        has_section(secs, name),
        section_index(secs, name) == i,
{
    assert(has_section(secs, name));
    let j = section_index(secs, name);
    assert(secs[j].name == name);
}

/// Whether `secs` has key `k` in section `s`.
pub open spec fn has_entry(secs: Seq<SectionView>, s: Seq<char>, k: Seq<char>) -> bool {
    has_section(secs, s) && has_key(secs[section_index(secs, s)].entries, k)
}

/// The value stored under key `k` of section `s`.
pub open spec fn value_of(secs: Seq<SectionView>, s: Seq<char>, k: Seq<char>) -> Option<Seq<char>> {
    if has_entry(secs, s, k) {
        let es = secs[section_index(secs, s)].entries;
        Some(es[key_index(es, k)].value)
    } else {
        None
    }
}

/// The diagnostic for a failed lookup of key `k` in section `s`.
pub open spec fn lookup_error(tpl: Seq<Seq<char>>, secs: Seq<SectionView>, s: Seq<char>, k: Seq<char>) -> Seq<char> {
    if !has_section(secs, s) {
        fill(tpl[SECTION_NOT_FOUND as int], seq![s])
    } else {
        fill(tpl[KEY_NOT_FOUND as int], seq![s, k])
    }
}

/// `secs` with the value under key `k` of section `s` replaced by `v`.
pub open spec fn set_value(secs: Seq<SectionView>, s: Seq<char>, k: Seq<char>, v: Seq<char>) -> Seq<SectionView> {
    if has_entry(secs, s, k) {
        let i = section_index(secs, s);
        let es = secs[i].entries;
        let j = key_index(es, k);
        secs.update(i, SectionView { name: s, entries: es.update(j, EntryView { value: v, ..es[j] }) })
    } else {
        secs
    }
}

pub open spec fn section_views(v: Seq<Section>) -> Seq<SectionView> {
    v.map_values(|s: Section| s@)
}

// ---------------------------------------------------------------------------
// The store

/// What a settings store holds: the path it was loaded from (empty when it
/// was not), its sections, and its diagnostic templates.
pub struct SettingsView {
    pub path: Seq<char>,
    pub sections: Seq<SectionView>,
    pub templates: Seq<Seq<char>>,
}

/// The result of a typed lookup: the value found, or the default, and the
/// diagnostic, empty when the lookup succeeded.
pub struct SettingsValue<T> {
    pub value: T,
    pub error: String,
}

/// A settings store.
pub struct Settings {
    path: String,
    sections: Vec<Section>,
    messages_table: Vec<String>,
}

impl View for Settings {
    type V = SettingsView;

    closed spec fn view(&self) -> SettingsView {
        SettingsView {
            path: self.path@,
            sections: section_views(self.sections@),
            templates: views(self.messages_table@),
        }
    }
}

/// The default (English) diagnostic templates.
pub open spec fn default_templates() -> Seq<Seq<char>> {
    seq![
        "Error opening settings file: '{}': '{}'"@,
        "Missing start section tag '{}' at line '{}' of settings file: '{}'"@,
        "Missing end section tag '{}' at line '{}' of settings file: '{}'"@,
        "Missing assign tag '{}' at line '{}' of settings file: '{}'"@,
        "Missing key at line '{}' of settings file: '{}'"@,
        "Duplicated key '{}' at line '{}' previously defined at line '{}' of settings file: '{}'"@,
        "Section '{}' not found"@,
        "Section '{}' key '{}' not found"@,
        "Section '{}' key '{}', Parsing error: '{}'"@,
        "Error writing file: '{}': '{}'"@,
        "Error reading file: '{}' at line {}: '{}'"@,
        "Settings already initialized using file: '{}'"@,
    ]
}

/// A result whose error is a `String`, with the error as its characters.
pub open spec fn err_view<T>(r: Result<T, String>) -> Result<T, Seq<char>> {
    match r {
        Ok(v) => Ok(v),
        Err(e) => Err(e@),
    }
}

/// A type that a stored text can be read as.
pub trait SettingValue: Sized {
    /// Whether `r` is what reading `text` as this type gives: the value, or
    /// the `{:#?}` rendering of the parse error.
    spec fn read_as(text: Seq<char>, r: Result<Self, Seq<char>>) -> bool;

    /// The text read as a value of the type, or the `{:#?}` rendering of
    /// the error that the parse reported.
    fn parse_setting(text: &String) -> (r: Result<Self, String>)
        ensures
            Self::read_as(text@, err_view(r)),
    ;
}

/// The value of a run of ASCII digits.
pub open spec fn digits_value(s: Seq<char>) -> int
    decreases s.len(),
{
    if s.len() == 0 {
        0
    } else {
        digits_value(s.drop_last()) * 10 + (s.last() as u32 - 48)
    }
}

/// `s` is one or more ASCII digits.
pub open spec fn all_digits(s: Seq<char>) -> bool {
    s.len() > 0 && forall|i: int| 0 <= i < s.len() ==> 48 <= #[trigger] (s[i] as u32) <= 57
}

/// The number an integer parse reads from `s`: an optional `+` (or `-`,
/// for a signed type) followed by one or more ASCII digits. `None` for any
/// other text; the range of the type is checked apart.
pub open spec fn decimal_integer(s: Seq<char>, signed: bool) -> Option<int> {
    if s.len() > 0 && s[0] == '+' && all_digits(s.drop_first()) {
        Some(digits_value(s.drop_first()))
    } else if signed && s.len() > 0 && s[0] == '-' && all_digits(s.drop_first()) {
        Some(-digits_value(s.drop_first()))
    } else if all_digits(s) {
        Some(digits_value(s))
    } else {
        None
    }
}

/// An integer parse of `text` succeeds exactly when it reads a number
/// within `lo..=hi`, and then gives that number.
pub open spec fn integer_outcome(text: Seq<char>, signed: bool, lo: int, hi: int, ok: bool, v: int) -> bool {
    &&& ok <==> (decimal_integer(text, signed) is Some && lo <= decimal_integer(text, signed)->0 <= hi)
    &&& ok ==> decimal_integer(text, signed) == Some(v)
}

pub uninterp spec fn parsed_i8(s: Seq<char>) -> Result<i8, Seq<char>>;

/// Relies on `str::parse::<i8>`: the outcome depends on the text alone,
/// and the text must be an optional `+` or `-` and decimal digits, with a value
/// within the range of `i8`.
#[verifier::external_body]
fn parse_i8(text: &String) -> (r: Result<i8, String>)
    ensures
        err_view(r) == parsed_i8(text@),
        integer_outcome(text@, true, i8::MIN as int, i8::MAX as int, r is Ok, r->Ok_0 as int),
{
    match text.parse::<i8>() {
        Ok(v) => Ok(v),
        Err(e) => Err(format!("{:#?}", e)),
    }
}

impl SettingValue for i8 {
    open spec fn read_as(text: Seq<char>, r: Result<i8, Seq<char>>) -> bool {
        &&& r == parsed_i8(text)
        &&& integer_outcome(text, true, i8::MIN as int, i8::MAX as int, r is Ok, r->Ok_0 as int)
    }

    fn parse_setting(text: &String) -> (r: Result<i8, String>) {
        parse_i8(text)
    }
}

pub uninterp spec fn parsed_i16(s: Seq<char>) -> Result<i16, Seq<char>>;

/// Relies on `str::parse::<i16>`: the outcome depends on the text alone,
/// and the text must be an optional `+` or `-` and decimal digits, with a value
/// within the range of `i16`.
#[verifier::external_body]
fn parse_i16(text: &String) -> (r: Result<i16, String>)
    ensures
        err_view(r) == parsed_i16(text@),
        integer_outcome(text@, true, i16::MIN as int, i16::MAX as int, r is Ok, r->Ok_0 as int),
{
    match text.parse::<i16>() {
        Ok(v) => Ok(v),
        Err(e) => Err(format!("{:#?}", e)),
    }
}

impl SettingValue for i16 {
    open spec fn read_as(text: Seq<char>, r: Result<i16, Seq<char>>) -> bool {
        &&& r == parsed_i16(text)
        &&& integer_outcome(text, true, i16::MIN as int, i16::MAX as int, r is Ok, r->Ok_0 as int)
    }

    fn parse_setting(text: &String) -> (r: Result<i16, String>) {
        parse_i16(text)
    }
}

pub uninterp spec fn parsed_i32(s: Seq<char>) -> Result<i32, Seq<char>>;

/// Relies on `str::parse::<i32>`: the outcome depends on the text alone,
/// and the text must be an optional `+` or `-` and decimal digits, with a value
/// within the range of `i32`.
#[verifier::external_body]
fn parse_i32(text: &String) -> (r: Result<i32, String>)
    ensures
        err_view(r) == parsed_i32(text@),
        integer_outcome(text@, true, i32::MIN as int, i32::MAX as int, r is Ok, r->Ok_0 as int),
{
    match text.parse::<i32>() {
        Ok(v) => Ok(v),
        Err(e) => Err(format!("{:#?}", e)),
    }
}

impl SettingValue for i32 {
    open spec fn read_as(text: Seq<char>, r: Result<i32, Seq<char>>) -> bool {
        &&& r == parsed_i32(text)
        &&& integer_outcome(text, true, i32::MIN as int, i32::MAX as int, r is Ok, r->Ok_0 as int)
    }

    fn parse_setting(text: &String) -> (r: Result<i32, String>) {
        parse_i32(text)
    }
}

pub uninterp spec fn parsed_i64(s: Seq<char>) -> Result<i64, Seq<char>>;

/// Relies on `str::parse::<i64>`: the outcome depends on the text alone,
/// and the text must be an optional `+` or `-` and decimal digits, with a value
/// within the range of `i64`.
#[verifier::external_body]
fn parse_i64(text: &String) -> (r: Result<i64, String>)
    ensures
        err_view(r) == parsed_i64(text@),
        integer_outcome(text@, true, i64::MIN as int, i64::MAX as int, r is Ok, r->Ok_0 as int),
{
    match text.parse::<i64>() {
        Ok(v) => Ok(v),
        Err(e) => Err(format!("{:#?}", e)),
    }
}

impl SettingValue for i64 {
    open spec fn read_as(text: Seq<char>, r: Result<i64, Seq<char>>) -> bool {
        &&& r == parsed_i64(text)
        &&& integer_outcome(text, true, i64::MIN as int, i64::MAX as int, r is Ok, r->Ok_0 as int)
    }

    fn parse_setting(text: &String) -> (r: Result<i64, String>) {
        parse_i64(text)
    }
}

pub uninterp spec fn parsed_isize(s: Seq<char>) -> Result<isize, Seq<char>>;

/// Relies on `str::parse::<isize>`: the outcome depends on the text alone,
/// and the text must be an optional `+` or `-` and decimal digits, with a value
/// within the range of `isize`.
#[verifier::external_body]
fn parse_isize(text: &String) -> (r: Result<isize, String>)
    ensures
        err_view(r) == parsed_isize(text@),
        integer_outcome(text@, true, isize::MIN as int, isize::MAX as int, r is Ok, r->Ok_0 as int),
{
    match text.parse::<isize>() {
        Ok(v) => Ok(v),
        Err(e) => Err(format!("{:#?}", e)),
    }
}

impl SettingValue for isize {
    open spec fn read_as(text: Seq<char>, r: Result<isize, Seq<char>>) -> bool {
        &&& r == parsed_isize(text)
        &&& integer_outcome(text, true, isize::MIN as int, isize::MAX as int, r is Ok, r->Ok_0 as int)
    }

    fn parse_setting(text: &String) -> (r: Result<isize, String>) {
        parse_isize(text)
    }
}

pub uninterp spec fn parsed_u8(s: Seq<char>) -> Result<u8, Seq<char>>;

/// Relies on `str::parse::<u8>`: the outcome depends on the text alone,
/// and the text must be an optional `+` and decimal digits, with a value
/// within the range of `u8`.
#[verifier::external_body]
fn parse_u8(text: &String) -> (r: Result<u8, String>)
    ensures
        err_view(r) == parsed_u8(text@),
        integer_outcome(text@, false, u8::MIN as int, u8::MAX as int, r is Ok, r->Ok_0 as int),
{
    match text.parse::<u8>() {
        Ok(v) => Ok(v),
        Err(e) => Err(format!("{:#?}", e)),
    }
}

impl SettingValue for u8 {
    open spec fn read_as(text: Seq<char>, r: Result<u8, Seq<char>>) -> bool {
        &&& r == parsed_u8(text)
        &&& integer_outcome(text, false, u8::MIN as int, u8::MAX as int, r is Ok, r->Ok_0 as int)
    }

    fn parse_setting(text: &String) -> (r: Result<u8, String>) {
        parse_u8(text)
    }
}

pub uninterp spec fn parsed_u16(s: Seq<char>) -> Result<u16, Seq<char>>;

/// Relies on `str::parse::<u16>`: the outcome depends on the text alone,
/// and the text must be an optional `+` and decimal digits, with a value
/// within the range of `u16`.
#[verifier::external_body]
fn parse_u16(text: &String) -> (r: Result<u16, String>)
    ensures
        err_view(r) == parsed_u16(text@),
        integer_outcome(text@, false, u16::MIN as int, u16::MAX as int, r is Ok, r->Ok_0 as int),
{
    match text.parse::<u16>() {
        Ok(v) => Ok(v),
        Err(e) => Err(format!("{:#?}", e)),
    }
}

impl SettingValue for u16 {
    open spec fn read_as(text: Seq<char>, r: Result<u16, Seq<char>>) -> bool {
        &&& r == parsed_u16(text)
        &&& integer_outcome(text, false, u16::MIN as int, u16::MAX as int, r is Ok, r->Ok_0 as int)
    }

    fn parse_setting(text: &String) -> (r: Result<u16, String>) {
        parse_u16(text)
    }
}

pub uninterp spec fn parsed_u32(s: Seq<char>) -> Result<u32, Seq<char>>;

/// Relies on `str::parse::<u32>`: the outcome depends on the text alone,
/// and the text must be an optional `+` and decimal digits, with a value
/// within the range of `u32`.
#[verifier::external_body]
fn parse_u32(text: &String) -> (r: Result<u32, String>)
    ensures
        err_view(r) == parsed_u32(text@),
        integer_outcome(text@, false, u32::MIN as int, u32::MAX as int, r is Ok, r->Ok_0 as int),
{
    match text.parse::<u32>() {
        Ok(v) => Ok(v),
        Err(e) => Err(format!("{:#?}", e)),
    }
}

impl SettingValue for u32 {
    open spec fn read_as(text: Seq<char>, r: Result<u32, Seq<char>>) -> bool {
        &&& r == parsed_u32(text)
        &&& integer_outcome(text, false, u32::MIN as int, u32::MAX as int, r is Ok, r->Ok_0 as int)
    }

    fn parse_setting(text: &String) -> (r: Result<u32, String>) {
        parse_u32(text)
    }
}

pub uninterp spec fn parsed_u64(s: Seq<char>) -> Result<u64, Seq<char>>;

/// Relies on `str::parse::<u64>`: the outcome depends on the text alone,
/// and the text must be an optional `+` and decimal digits, with a value
/// within the range of `u64`.
#[verifier::external_body]
fn parse_u64(text: &String) -> (r: Result<u64, String>)
    ensures
        err_view(r) == parsed_u64(text@),
        integer_outcome(text@, false, u64::MIN as int, u64::MAX as int, r is Ok, r->Ok_0 as int),
{
    match text.parse::<u64>() {
        Ok(v) => Ok(v),
        Err(e) => Err(format!("{:#?}", e)),
    }
}

impl SettingValue for u64 {
    open spec fn read_as(text: Seq<char>, r: Result<u64, Seq<char>>) -> bool {
        &&& r == parsed_u64(text)
        &&& integer_outcome(text, false, u64::MIN as int, u64::MAX as int, r is Ok, r->Ok_0 as int)
    }

    fn parse_setting(text: &String) -> (r: Result<u64, String>) {
        parse_u64(text)
    }
}

pub uninterp spec fn parsed_usize(s: Seq<char>) -> Result<usize, Seq<char>>;

/// Relies on `str::parse::<usize>`: the outcome depends on the text alone,
/// and the text must be an optional `+` and decimal digits, with a value
/// within the range of `usize`.
#[verifier::external_body]
fn parse_usize(text: &String) -> (r: Result<usize, String>)
    ensures
        err_view(r) == parsed_usize(text@),
        integer_outcome(text@, false, usize::MIN as int, usize::MAX as int, r is Ok, r->Ok_0 as int),
{
    match text.parse::<usize>() {
        Ok(v) => Ok(v),
        Err(e) => Err(format!("{:#?}", e)),
    }
}

impl SettingValue for usize {
    open spec fn read_as(text: Seq<char>, r: Result<usize, Seq<char>>) -> bool {
        &&& r == parsed_usize(text)
        &&& integer_outcome(text, false, usize::MIN as int, usize::MAX as int, r is Ok, r->Ok_0 as int)
    }

    fn parse_setting(text: &String) -> (r: Result<usize, String>) {
        parse_usize(text)
    }
}

pub uninterp spec fn parsed_bool(s: Seq<char>) -> Result<bool, Seq<char>>;

/// Relies on `str::parse::<bool>`: the outcome depends on the text alone;
/// `"true"` and `"false"` are the only texts accepted.
#[verifier::external_body]
fn parse_bool(text: &String) -> (r: Result<bool, String>)
    ensures
        err_view(r) == parsed_bool(text@),
        r is Ok <==> (text@ == "true"@ || text@ == "false"@),
        r is Ok ==> (r->Ok_0 <==> text@ == "true"@),
{
    match text.parse::<bool>() {
        Ok(v) => Ok(v),
        Err(e) => Err(format!("{:#?}", e)),
    }
}

impl SettingValue for bool {
    open spec fn read_as(text: Seq<char>, r: Result<bool, Seq<char>>) -> bool {
        r == parsed_bool(text)
    }

    fn parse_setting(text: &String) -> (r: Result<bool, String>) {
        parse_bool(text)
    }
}

/// Relies on `str::parse::<String>`, which cannot fail: a copy of the text.
#[verifier::external_body]
fn parse_string(text: &String) -> (r: Result<String, String>)
    ensures
        r is Ok,
        r->Ok_0@ == text@,
{
    match text.parse::<String>() {
        Ok(v) => Ok(v),
        Err(e) => Err(format!("{:#?}", e)),
    }
}

impl SettingValue for String {
    open spec fn read_as(text: Seq<char>, r: Result<String, Seq<char>>) -> bool {
        r is Ok && r->Ok_0@ == text
    }

    fn parse_setting(text: &String) -> (r: Result<String, String>) {
        parse_string(text)
    }
}

// ---------------------------------------------------------------------------
// Loading

/// How reading the file went: all its lines; the error from opening it;
/// or the lines read before a read failed, and that failure.
pub enum FileRead {
    Complete(Vec<String>),
    OpenError(String),
    ReadError(Vec<String>, String),
}

/// What `add_to_section` does: `key = value`, read at line `n`, goes into
/// section `cur`, which is created when it is not there yet. A key that the
/// section already has is refused with a diagnostic that cites both lines.
pub open spec fn add_entry(
    tpl: Seq<Seq<char>>,
    path: Seq<char>,
    secs: Seq<SectionView>,
    cur: Seq<char>,
    key: Seq<char>,
    value: Seq<char>,
    n: nat,
) -> Result<Seq<SectionView>, Seq<char>> {
    let e = EntryView { key, value, line: n };
    if has_section(secs, cur) {
        let i = section_index(secs, cur);
        let es = secs[i].entries;
        if has_key(es, key) {
            Err(
                fill(
                    tpl[DUPLICATED_KEY as int],
                    seq![key, decimal(n), decimal(es[key_index(es, key)].line), path],
                ),
            )
        } else {
            Ok(secs.update(i, SectionView { name: cur, entries: es.push(e) }))
        }
    } else {
        Ok(secs.push(SectionView { name: cur, entries: seq![e] }))
    }
}

/// Where a scan of the lines stands: the current section name, the
/// sections so far, and the diagnostic that stopped it, if one did.
pub struct ScanState {
    pub current: Seq<char>,
    pub sections: Seq<SectionView>,
    pub failure: Option<Seq<char>>,
}

/// The scan after line number `n`, whose text is `line`.
pub open spec fn step(tpl: Seq<Seq<char>>, path: Seq<char>, st: ScanState, line: Seq<char>, n: nat) -> ScanState {
    if st.failure is Some {
        st
    } else {
        match classify(tpl, path, line, n) {
            LineKind::Empty => st,
            LineKind::Header(name) => ScanState { current: name, ..st },
            LineKind::Pair(k, v) => match add_entry(tpl, path, st.sections, st.current, k, v, n) {
                Ok(secs) => ScanState { sections: secs, ..st },
                Err(m) => ScanState { failure: Some(m), ..st },
            },
            LineKind::Malformed(m) => ScanState { failure: Some(m), ..st },
        }
    }
}

/// The scan of `lines`, numbered from 1, starting in the global section.
pub open spec fn scan(tpl: Seq<Seq<char>>, path: Seq<char>, lines: Seq<Seq<char>>) -> ScanState
    decreases lines.len(),
{
    if lines.len() == 0 {
        ScanState { current: global_name(), sections: Seq::empty(), failure: None }
    } else {
        step(tpl, path, scan(tpl, path, lines.drop_last()), lines.last(), lines.len())
    }
}

/// The sections that loading from `source` yields, or its diagnostic.
pub open spec fn load_outcome(tpl: Seq<Seq<char>>, path: Seq<char>, source: FileRead) -> Result<Seq<SectionView>, Seq<char>> {
    match source {
        FileRead::OpenError(e) => Err(fill(tpl[OPENING_FILE_ERROR as int], seq![path, e@])),
        FileRead::Complete(ls) => {
            let st = scan(tpl, path, views(ls@));
            match st.failure {
                Some(m) => Err(m),
                None => Ok(st.sections),
            }
        },
        FileRead::ReadError(ls, e) => {
            let st = scan(tpl, path, views(ls@));
            match st.failure {
                Some(m) => Err(m),
                None => Err(
                    fill(
                        tpl[READING_FILE_ERROR as int],
                        seq![path, decimal(ls@.len() + 1), e@],
                    ),
                ),
            }
        },
    }
}

/// The line count of `source` leaves room for one more line number.
pub open spec fn source_fits(source: FileRead) -> bool {
    match source {
        FileRead::Complete(ls) => ls@.len() < usize::MAX,
        FileRead::ReadError(ls, _) => ls@.len() < usize::MAX,
        FileRead::OpenError(_) => true,
    }
}

pub proof fn lemma_add_entry_wf(
    tpl: Seq<Seq<char>>,
    path: Seq<char>,
    secs: Seq<SectionView>,
    cur: Seq<char>,
    key: Seq<char>,
    value: Seq<char>,
    n: nat,
)
    requires
        sections_wf(secs),
        n >= 1,
        lines_within(secs, (n - 1) as nat),
    ensures
        add_entry(tpl, path, secs, cur, key, value, n) is Ok ==> {
            let r = add_entry(tpl, path, secs, cur, key, value, n)->Ok_0;
            sections_wf(r) && lines_within(r, n)
        },
{
    let e = EntryView { key, value, line: n };
    if has_section(secs, cur) {
        let i = section_index(secs, cur);
        let es = secs[i].entries;
        assert(secs[i].name == cur);
        if !has_key(es, key) {
            let r = secs.update(i, SectionView { name: cur, entries: es.push(e) });
            assert(keys_unique(es));
            assert forall|a: int, b: int| 0 <= a < r.len() && 0 <= b < r.len() && #[trigger] r[a].name == #[trigger] r[b].name implies a == b by {
                assert(secs[a].name == secs[b].name);
            }
            assert forall|x: int| 0 <= x < r.len() implies keys_unique(#[trigger] r[x].entries) by {
                if x == i {
                    assert forall|a: int, b: int| 0 <= a < r[x].entries.len() && 0 <= b < r[x].entries.len()
                        && #[trigger] r[x].entries[a].key == #[trigger] r[x].entries[b].key implies a == b by {
                        if a < es.len() && b < es.len() {
                        } else if a < es.len() {
                            assert(es[a].key == key);
                        } else if b < es.len() {
                            assert(es[b].key == key);
                        }
                    }
                } else {
                    assert(keys_unique(secs[x].entries));
                }
            }
            assert forall|i1: int, j1: int| 0 <= i1 < r.len() && 0 <= j1 < r[i1].entries.len() implies
                1 <= #[trigger] r[i1].entries[j1].line <= n by {
                if !(i1 == i && j1 == es.len()) {
                    assert(r[i1].entries[j1] == secs[i1].entries[j1]);
                }
            }
            assert forall|i1: int, j1: int, i2: int, j2: int|
                0 <= i1 < r.len() && 0 <= j1 < r[i1].entries.len() && 0 <= i2 < r.len() && 0 <= j2 < r[i2].entries.len()
                    && #[trigger] r[i1].entries[j1].line == #[trigger] r[i2].entries[j2].line implies i1 == i2 && j1 == j2 by {
                let new1 = i1 == i && j1 == es.len();
                let new2 = i2 == i && j2 == es.len();
                if !new1 {
                    assert(r[i1].entries[j1] == secs[i1].entries[j1]);
                }
                if !new2 {
                    assert(r[i2].entries[j2] == secs[i2].entries[j2]);
                }
            }
        }
    } else {
        let r = secs.push(SectionView { name: cur, entries: seq![e] });
        assert forall|a: int, b: int| 0 <= a < r.len() && 0 <= b < r.len() && #[trigger] r[a].name == #[trigger] r[b].name implies a == b by {
            if a < secs.len() && b < secs.len() {
                assert(secs[a].name == secs[b].name);
            } else if a < secs.len() {
                assert(secs[a].name == cur);
            } else if b < secs.len() {
                assert(secs[b].name == cur);
            }
        }
        assert forall|x: int| 0 <= x < r.len() implies keys_unique(#[trigger] r[x].entries) by {
            if x < secs.len() {
                assert(keys_unique(secs[x].entries));
            }
        }
        assert forall|i1: int, j1: int| 0 <= i1 < r.len() && 0 <= j1 < r[i1].entries.len() implies
            1 <= #[trigger] r[i1].entries[j1].line <= n by {
            if i1 < secs.len() {
                assert(r[i1].entries[j1] == secs[i1].entries[j1]);
            }
        }
        assert forall|i1: int, j1: int, i2: int, j2: int|
            0 <= i1 < r.len() && 0 <= j1 < r[i1].entries.len() && 0 <= i2 < r.len() && 0 <= j2 < r[i2].entries.len()
                && #[trigger] r[i1].entries[j1].line == #[trigger] r[i2].entries[j2].line implies i1 == i2 && j1 == j2 by {
            if i1 < secs.len() {
                assert(r[i1].entries[j1] == secs[i1].entries[j1]);
            }
            if i2 < secs.len() {
                assert(r[i2].entries[j2] == secs[i2].entries[j2]);
            }
        }
    }
}

/// The sections of every scan are well formed, with lines within the
/// lines scanned.
pub proof fn lemma_scan_wf(tpl: Seq<Seq<char>>, path: Seq<char>, lines: Seq<Seq<char>>)
    ensures
        sections_wf(scan(tpl, path, lines).sections),
        lines_within(scan(tpl, path, lines).sections, lines.len()),
    decreases lines.len(),
{
    if lines.len() > 0 {
        lemma_scan_wf(tpl, path, lines.drop_last());
        let st = scan(tpl, path, lines.drop_last());
        let n = lines.len();
        assert(lines_within(st.sections, n));
        if st.failure is None {
            match classify(tpl, path, lines.last(), n) {
                LineKind::Pair(k, v) => {
                    lemma_add_entry_wf(tpl, path, st.sections, st.current, k, v, n);
                },
                _ => {},
            }
        }
    }
}

/// Once a scan has stopped on a diagnostic, later lines do not change it.
pub proof fn lemma_scan_failure_persists(tpl: Seq<Seq<char>>, path: Seq<char>, lines: Seq<Seq<char>>, i: int)
    requires
        0 <= i <= lines.len(),
        scan(tpl, path, lines.take(i)).failure is Some,
    ensures
        scan(tpl, path, lines) == scan(tpl, path, lines.take(i)),
    decreases lines.len(),
{
    if lines.len() == i {
        assert(lines.take(i) =~= lines);
    } else {
        assert(lines.drop_last().take(i) =~= lines.take(i));
        lemma_scan_failure_persists(tpl, path, lines.drop_last(), i);
    }
}


// ---------------------------------------------------------------------------
// Saving

/// The line written for `key` and `value` in place of `line`:
/// `key = value`, then a space and the comment of `line` (from its
/// first `#`) when it has one.
pub open spec fn render(key: Seq<char>, value: Seq<char>, line: Seq<char>) -> Seq<char> {
    let c = find_from(line, '#', 0);
    let head = key + seq![' ', '=', ' '] + value;
    if c < line.len() {
        head + seq![' '] + line.subrange(c, line.len() as int)
    } else {
        head
    }
}

/// Whether some entry of `secs` was read at line `x + 1`.
pub open spec fn owns_line(secs: Seq<SectionView>, x: int) -> bool {
    exists|a: int, b: int|
        0 <= a < secs.len() && 0 <= b < secs[a].entries.len() && #[trigger] secs[a].entries[b].line == x + 1
}

/// The entry of `secs` read at line `x + 1` (meaningful when `owns_line`).
pub open spec fn owner_of(secs: Seq<SectionView>, x: int) -> EntryView {
    let (a, b) = choose|a: int, b: int|
        0 <= a < secs.len() && 0 <= b < secs[a].entries.len() && #[trigger] secs[a].entries[b].line == x + 1;
    secs[a].entries[b]
}

/// The lines of the file once the entries of `secs` are written back:
/// each line that an entry was read from is rendered anew, every other
/// line stays as it is.
pub open spec fn rewritten(secs: Seq<SectionView>, lines: Seq<Seq<char>>) -> Seq<Seq<char>> {
    Seq::new(
        lines.len(),
        |x: int|
            if owns_line(secs, x) {
                render(owner_of(secs, x).key, owner_of(secs, x).value, lines[x])
            } else {
                lines[x]
            },
    )
}

/// Whether an entry before position (`i`, `j`) of `secs` was read at line `x + 1`.
pub open spec fn owned_before(secs: Seq<SectionView>, x: int, i: int, j: int) -> bool {
    exists|a: int, b: int|
        0 <= a < secs.len() && 0 <= b < secs[a].entries.len() && (a < i || (a == i && b < j))
            && #[trigger] secs[a].entries[b].line == x + 1
}

pub proof fn lemma_owner_of(secs: Seq<SectionView>, x: int, a: int, b: int)
    requires
        lines_distinct(secs),
        0 <= a < secs.len(),
        0 <= b < secs[a].entries.len(),
        secs[a].entries[b].line == x + 1,
    ensures
        owns_line(secs, x),
        owner_of(secs, x) == secs[a].entries[b],
{
    assert(owns_line(secs, x));
    let (a2, b2) = choose|a2: int, b2: int|
        0 <= a2 < secs.len() && 0 <= b2 < secs[a2].entries.len() && #[trigger] secs[a2].entries[b2].line == x + 1;
    assert(secs[a2].entries[b2].line == secs[a].entries[b].line);
}

/// `render` on strings.
pub fn render_line(key: &String, value: &String, line: &String) -> (r: String)
    ensures
        r@ == render(key@, value@, line@),
{
    let k = chars_of(key.as_str());
    let v = chars_of(value.as_str());
    let o = chars_of(line.as_str());
    let mut out: Vec<char> = Vec::new();
    push_range(&mut out, &k, 0, k.len());
    out.push(' ');
    out.push('=');
    out.push(' ');
    push_range(&mut out, &v, 0, v.len());
    let c = find_char(&o, '#');
    assert(k@.subrange(0, k@.len() as int) =~= k@);
    assert(v@.subrange(0, v@.len() as int) =~= v@);
    if c < o.len() {
        out.push(' ');
        push_range(&mut out, &o, c, o.len());
    }
    assert(out@ =~= render(key@, value@, line@));
    string_of(&out, 0, out.len())
}


// ---------------------------------------------------------------------------
// Text dump

/// `key: <key>, value: <value>` lines, one per entry.
pub open spec fn entries_text(es: Seq<EntryView>) -> Seq<char>
    decreases es.len(),
{
    if es.len() == 0 {
        Seq::empty()
    } else {
        entries_text(es.drop_last()) + "key: "@ + es.last().key + ", value: "@ + es.last().value + "\n"@
    }
}

/// Each section as its `[name]` line, its entries, and a blank line.
pub open spec fn sections_text(secs: Seq<SectionView>) -> Seq<char>
    decreases secs.len(),
{
    if secs.len() == 0 {
        Seq::empty()
    } else {
        sections_text(secs.drop_last()) + "["@ + secs.last().name + "]\n"@ + entries_text(secs.last().entries) + "\n"@
    }
}

/// The dump of a store: its path, its sections, and a closing rule.
pub open spec fn settings_text(v: SettingsView) -> Seq<char> {
    "Settings path: "@ + v.path + "\n"@ + sections_text(v.sections) + RULE_LINE@
}

pub const RULE_LINE: &'static str = "====================================================================\n";

/// Appends the characters of `s` to `out`.
fn push_str(out: &mut Vec<char>, s: &str)
    ensures
        final(out)@ == old(out)@ + s@,
{
    let c = chars_of(s);
    push_range(out, &c, 0, c.len());
    assert(c@.subrange(0, c@.len() as int) =~= c@);
}

/// Replacing a value keeps the sections well formed.
pub proof fn lemma_set_value_wf(secs: Seq<SectionView>, s: Seq<char>, k: Seq<char>, v: Seq<char>)
    requires
        sections_wf(secs),
    ensures
        sections_wf(set_value(secs, s, k, v)),
        set_value(secs, s, k, v).len() == secs.len(),
        forall|i: int| 0 <= i < secs.len() ==> (#[trigger] set_value(secs, s, k, v)[i]).name == secs[i].name,
        forall|i: int, j: int| 0 <= i < secs.len() && 0 <= j < secs[i].entries.len() ==>
            (#[trigger] set_value(secs, s, k, v)[i].entries[j]).line == secs[i].entries[j].line
            && set_value(secs, s, k, v)[i].entries[j].key == secs[i].entries[j].key,
        forall|i: int| 0 <= i < secs.len() ==> (#[trigger] set_value(secs, s, k, v)[i]).entries.len() == secs[i].entries.len(),
{
    if has_entry(secs, s, k) {
        let i = section_index(secs, s);
        let es = secs[i].entries;
        let j = key_index(es, k);
        assert(secs[i].name == s);
        assert(es[j].key == k);
    }
    let r = set_value(secs, s, k, v);
    assert forall|i1: int, j1: int, i2: int, j2: int|
        0 <= i1 < r.len() && 0 <= j1 < r[i1].entries.len() && 0 <= i2 < r.len() && 0 <= j2 < r[i2].entries.len()
            && #[trigger] r[i1].entries[j1].line == #[trigger] r[i2].entries[j2].line implies i1 == i2 && j1 == j2 by {
        assert(secs[i1].entries[j1].line == secs[i2].entries[j2].line);
    }
    assert forall|i: int| 0 <= i < r.len() implies keys_unique(#[trigger] r[i].entries) by {
        assert(keys_unique(secs[i].entries));
        assert forall|a: int, b: int| 0 <= a < r[i].entries.len() && 0 <= b < r[i].entries.len()
            && #[trigger] r[i].entries[a].key == #[trigger] r[i].entries[b].key implies a == b by {
            assert(secs[i].entries[a].key == secs[i].entries[b].key);
        }
    }
    assert forall|a: int, b: int| 0 <= a < r.len() && 0 <= b < r.len() && #[trigger] r[a].name == #[trigger] r[b].name implies a == b by {
        assert(secs[a].name == secs[b].name);
    }
}

impl Settings {
    /// The store is usable: a full table of templates and well-formed sections.
    pub open spec fn wf(&self) -> bool {
        &&& self@.templates.len() == MESSAGES_NUMBER
        &&& sections_wf(self@.sections)
    }

    /// An empty store with the default templates.
    pub fn new() -> (r: Self)
        ensures
            r.wf(),
            r@.path.len() == 0,
            r@.sections.len() == 0,
            r@.templates == default_templates(),
    {
        let mut t: Vec<String> = Vec::new();
        t.push(String::from_str("Error opening settings file: '{}': '{}'"));
        t.push(String::from_str("Missing start section tag '{}' at line '{}' of settings file: '{}'"));
        t.push(String::from_str("Missing end section tag '{}' at line '{}' of settings file: '{}'"));
        t.push(String::from_str("Missing assign tag '{}' at line '{}' of settings file: '{}'"));
        t.push(String::from_str("Missing key at line '{}' of settings file: '{}'"));
        t.push(
            String::from_str(
                "Duplicated key '{}' at line '{}' previously defined at line '{}' of settings file: '{}'",
            ),
        );
        t.push(String::from_str("Section '{}' not found"));
        t.push(String::from_str("Section '{}' key '{}' not found"));
        t.push(String::from_str("Section '{}' key '{}', Parsing error: '{}'"));
        t.push(String::from_str("Error writing file: '{}': '{}'"));
        t.push(String::from_str("Error reading file: '{}' at line {}: '{}'"));
        t.push(String::from_str("Settings already initialized using file: '{}'"));
        let r = Settings { path: String::new(), sections: Vec::new(), messages_table: t };
        assert(r@.templates =~= default_templates());
        assert(r@.sections =~= Seq::<SectionView>::empty());
        r
    }

    /// An empty store with the templates `settings_messages`, in the order
    /// of the diagnostic kinds.
    pub fn new_locale_messages(settings_messages: &[&str; MESSAGES_NUMBER]) -> (r: Self)
        ensures
            r.wf(),
            r@.path.len() == 0,
            r@.sections.len() == 0,
            r@.templates.len() == MESSAGES_NUMBER,
            forall|j: int| 0 <= j < MESSAGES_NUMBER ==> r@.templates[j] == (#[trigger] settings_messages@[j])@,
    {
        let mut t: Vec<String> = Vec::new();
        let mut i: usize = 0;
        while i < MESSAGES_NUMBER
            invariant
                i <= MESSAGES_NUMBER,
                settings_messages@.len() == MESSAGES_NUMBER,
                t@.len() == i,
                forall|j: int| 0 <= j < i ==> (#[trigger] t@[j])@ == settings_messages@[j]@,
            decreases MESSAGES_NUMBER - i,
        {
            t.push(String::from_str(settings_messages[i]));
            i = i + 1;
        }
        let r = Settings { path: String::new(), sections: Vec::new(), messages_table: t };
        assert(r@.sections =~= Seq::<SectionView>::empty());
        r
    }

    /// Whether a file was loaded.
    pub fn is_initialize(&self) -> (r: bool)
        ensures
            r == (self@.path.len() > 0),
    {
        self.path.as_str().unicode_len() != 0
    }

    /// Template `message_idx` filled with `params`.
    pub fn format_message(&self, message_idx: usize, params: &Vec<String>) -> (r: String)
        requires
            self.wf(),
            message_idx < MESSAGES_NUMBER,
        ensures
            r@ == fill(self@.templates[message_idx as int], views(params@)),
    {
        fill_template(&self.messages_table[message_idx], params)
    }

    fn section_position(&self, section_name: &String) -> (r: Option<usize>)
        requires
            self.wf(),
        ensures
            has_section(self@.sections, section_name@) ==> r is Some && r->0 as int == section_index(
                self@.sections,
                section_name@,
            ) && r->0 < self@.sections.len(),
            !has_section(self@.sections, section_name@) ==> r is None,
    {
        let ghost secs = self@.sections;
        let mut i: usize = 0;
        while i < self.sections.len()
            invariant
                secs == self@.sections,
                sections_wf(secs),
                i <= secs.len(),
                forall|j: int| 0 <= j < i ==> (#[trigger] secs[j]).name != section_name@,
            decreases secs.len() - i,
        {
            if self.sections[i].name == *section_name {
                proof {
                    lemma_section_index(secs, section_name@, i as int);
                }
                return Some(i);
            }
            i = i + 1;
        }
        None
    }

    /// The section named `section_name`, if any.
    fn get_section(&self, section_name: &String) -> (r: Option<&Section>)
        requires
            self.wf(),
        ensures
            has_section(self@.sections, section_name@) ==> r is Some && r->0@ == self@.sections[section_index(self@.sections, section_name@)],
            !has_section(self@.sections, section_name@) ==> r is None,
    {
        match self.section_position(section_name) {
            Some(i) => {
                assert(self@.sections[i as int] == self.sections@[i as int]@);
                Some(&self.sections[i])
            },
            None => None,
        }
    }

    fn not_found(&self, section_name: &String, key: &String) -> (r: String)
        requires
            self.wf(),
            !has_entry(self@.sections, section_name@, key@),
        ensures
            r@ == lookup_error(self@.templates, self@.sections, section_name@, key@),
    {
        let mut params: Vec<String> = Vec::new();
        params.push(section_name.clone());
        if self.section_position(section_name).is_none() {
            assert(views(params@) =~= seq![section_name@]);
            self.format_message(SECTION_NOT_FOUND, &params)
        } else {
            params.push(key.clone());
            assert(views(params@) =~= seq![section_name@, key@]);
            self.format_message(KEY_NOT_FOUND, &params)
        }
    }

    /// The text stored under `key` in section `section_name`, or the
    /// diagnostic that names the section or the key that is missing.
    pub fn lookup(&self, section_name: &str, key: &str) -> (r: Result<String, String>)
        requires
            self.wf(),
        ensures
            has_entry(self@.sections, section_name@, key@) ==> r is Ok && Some(r->Ok_0@) == value_of(
                self@.sections,
                section_name@,
                key@,
            ),
            !has_entry(self@.sections, section_name@, key@) ==> r is Err && r->Err_0@
                == lookup_error(self@.templates, self@.sections, section_name@, key@),
    {
        let sname = String::from_str(section_name);
        let kname = String::from_str(key);
        if let Some(section) = self.get_section(&sname) {
            if let Some(value) = section.get(&kname) {
                return Ok(value.clone());
            }
        }
        Err(self.not_found(&sname, &kname))
    }

    /// The result of a typed lookup once the stored text was parsed:
    /// the parsed value with no diagnostic, or the default with the parse
    /// diagnostic for `section_name` and `key`.
    pub fn parsed_value<T>(&self, section_name: &str, key: &str, default_value: T, parsed: Result<T, String>) -> (r: SettingsValue<T>)
        requires
            self.wf(),
        ensures
            parsed is Ok ==> r.value == parsed->Ok_0 && r.error@.len() == 0,
            parsed is Err ==> r.value == default_value && r.error@ == fill(
                self@.templates[PARSING_ERROR as int],
                seq![section_name@, key@, parsed->Err_0@],
            ),
    {
        match parsed {
            Ok(v) => SettingsValue { value: v, error: String::new() },
            Err(e) => {
                let mut params: Vec<String> = Vec::new();
                params.push(String::from_str(section_name));
                params.push(String::from_str(key));
                params.push(e);
                assert(views(params@) =~= seq![section_name@, key@, parsed->Err_0@]);
                SettingsValue { value: default_value, error: self.format_message(PARSING_ERROR, &params) }
            },
        }
    }

    /// The value under `key` in section `section_name` read as a `T`, or
    /// `default_value` together with a diagnostic when the section or the
    /// key is missing or the text does not parse.
    pub fn get<T: SettingValue>(
        &self,
        section_name: &str,
        key: &str,
        default_value: T,
    ) -> (r: SettingsValue<T>)
        requires
            self.wf(),
        ensures
            !has_entry(self@.sections, section_name@, key@) ==> r.value == default_value && r.error@
                == lookup_error(self@.templates, self@.sections, section_name@, key@),
            has_entry(self@.sections, section_name@, key@) ==> exists|p: Result<T, Seq<char>>|
                T::read_as(value_of(self@.sections, section_name@, key@)->0, p) && match p {
                    Ok(v) => r.value == v && r.error@.len() == 0,
                    Err(e) => r.value == default_value && r.error@ == fill(
                        self@.templates[PARSING_ERROR as int],
                        seq![section_name@, key@, e],
                    ),
                },
    {
        match self.lookup(section_name, key) {
            Ok(text) => {
                let parsed = T::parse_setting(&text);
                let ghost p = err_view(parsed);
                let r = self.parsed_value(section_name, key, default_value, parsed);
                assert(T::read_as(value_of(self@.sections, section_name@, key@)->0, p));
                r
            },
            Err(e) => SettingsValue { value: default_value, error: e },
        }
    }

    /// Stores `text` under `key` in section `section_name`. Only a value
    /// that is already there is replaced: no section or key is created.
    pub fn set_text(&mut self, section_name: &str, key: &str, text: String) -> (r: Result<(), String>)
        requires
            old(self).wf(),
        ensures
            final(self).wf(),
            final(self)@.path == old(self)@.path,
            final(self)@.templates == old(self)@.templates,
            has_entry(old(self)@.sections, section_name@, key@) ==> r is Ok && final(self)@.sections
                == set_value(old(self)@.sections, section_name@, key@, text@),
            !has_entry(old(self)@.sections, section_name@, key@) ==> r is Err && r->Err_0@
                == lookup_error(old(self)@.templates, old(self)@.sections, section_name@, key@)
                && final(self)@ == old(self)@,
    {
        let sname = String::from_str(section_name);
        let kname = String::from_str(key);
        let ghost secs = self@.sections;
        if let Some(i) = self.section_position(&sname) {
            proof {
                lemma_set_value_wf(secs, sname@, kname@, text@);
                assert(keys_unique(secs[i as int].entries));
            }
            let mut sec = self.sections.remove(i);
            let found = sec.set(&kname, text);
            self.sections.insert(i, sec);
            assert(self@.sections =~= secs.update(i as int, sec@));
            if found {
                assert(sec@ == set_value(secs, sname@, kname@, text@)[i as int]);
                assert(self@.sections =~= set_value(secs, sname@, kname@, text@));
                return Ok(());
            }
            assert(self@.sections =~= secs);
            assert(self@ =~= old(self)@);
        }
        Err(self.not_found(&sname, &kname))
    }

    /// Stores the text of `value` under `key` in section `section_name`, as
    /// `set_text` does.
    pub fn set<T: Display>(&mut self, section_name: &str, key: &str, value: T) -> (r: Result<(), String>)
        requires
            old(self).wf(),
        ensures
            final(self).wf(),
            final(self)@.path == old(self)@.path,
            final(self)@.templates == old(self)@.templates,
            has_entry(old(self)@.sections, section_name@, key@) ==> r is Ok && exists|t: String|
                to_string_from_display_ensures::<T>(&value, t) && final(self)@.sections
                    == set_value(old(self)@.sections, section_name@, key@, t@),
            !has_entry(old(self)@.sections, section_name@, key@) ==> r is Err && r->Err_0@
                == lookup_error(old(self)@.templates, old(self)@.sections, section_name@, key@)
                && final(self)@ == old(self)@,
    {
        let text = value.to_string();
        self.set_text(section_name, key, text)
    }

    /// Files `key = value`, read at line `line_cnt`, under `section_name`
    /// in `sections`, as `add_entry` says.
    fn add_to_section(
        &self,
        sections: &mut Vec<Section>,
        section_name: &String,
        key: String,
        value: String,
        line_cnt: usize,
        settings_file: &String,
    ) -> (r: Result<(), String>)
        requires
            self.wf(),
            sections_wf(section_views(old(sections)@)),
            line_cnt >= 1,
            lines_within(section_views(old(sections)@), (line_cnt - 1) as nat),
        ensures
            sections_wf(section_views(final(sections)@)),
            match add_entry(
                self@.templates,
                settings_file@,
                section_views(old(sections)@),
                section_name@,
                key@,
                value@,
                line_cnt as nat,
            ) {
                Ok(secs) => r is Ok && section_views(final(sections)@) == secs,
                Err(m) => r is Err && r->Err_0@ == m && section_views(final(sections)@)
                    == section_views(old(sections)@),
            },
    {
        let ghost secs = section_views(sections@);
        proof {
            lemma_add_entry_wf(
                self@.templates,
                settings_file@,
                secs,
                section_name@,
                key@,
                value@,
                line_cnt as nat,
            );
        }
        let mut i: usize = 0;
        while i < sections.len()
            invariant
                self.wf(),
                secs == section_views(sections@),
                secs == section_views(old(sections)@),
                sections_wf(secs),
                line_cnt >= 1,
                lines_within(secs, (line_cnt - 1) as nat),
                i <= secs.len(),
                forall|j: int| 0 <= j < i ==> (#[trigger] secs[j]).name != section_name@,
            decreases secs.len() - i,
        {
            if sections[i].name == *section_name {
                proof {
                    lemma_section_index(secs, section_name@, i as int);
                    assert(keys_unique(secs[i as int].entries));
                }
                let kname = key.clone();
                let mut sec = sections.remove(i);
                let ghost before = sec@;
                assert(before == secs[i as int]);
                let res = sec.add(key, value, line_cnt);
                sections.insert(i, sec);
                match res {
                    Ok(()) => {
                        assert(section_views(sections@) =~= secs.update(
                            i as int,
                            SectionView {
                                name: section_name@,
                                entries: before.entries.push(
                                    EntryView { key: kname@, value: value@, line: line_cnt as nat },
                                ),
                            },
                        ));
                        assert(add_entry(
                            self@.templates,
                            settings_file@,
                            secs,
                            section_name@,
                            kname@,
                            value@,
                            line_cnt as nat,
                        ) == Ok::<Seq<SectionView>, Seq<char>>(section_views(sections@)));
                        proof {
                            lemma_add_entry_wf(
                                self@.templates,
                                settings_file@,
                                secs,
                                section_name@,
                                kname@,
                                value@,
                                line_cnt as nat,
                            );
                        }
                        return Ok(());
                    },
                    Err(previous_line) => {
                        proof {
                            let k = key_index(before.entries, kname@);
                            assert(before.entries[k] == sec.values@[k]@);
                            assert(section_views(sections@) =~= secs);
                        }
                        let mut params: Vec<String> = Vec::new();
                        params.push(kname);
                        params.push(decimal_string(line_cnt));
                        params.push(decimal_string(previous_line));
                        params.push(settings_file.clone());
                        assert(views(params@) =~= seq![
                            key@,
                            decimal(line_cnt as nat),
                            decimal(previous_line as nat),
                            settings_file@,
                        ]);
                        return Err(self.format_message(DUPLICATED_KEY, &params));
                    },
                }
            }
            i = i + 1;
        }
        let mut sec = Section::new(section_name);
        let ghost k = key@;
        let ghost v = value@;
        let _ = sec.add(key, value, line_cnt);
        sections.push(sec);
        assert(sec@.entries =~= seq![EntryView { key: k, value: v, line: line_cnt as nat }]);
        assert(section_views(sections@) =~= secs.push(
            SectionView { name: section_name@, entries: seq![EntryView { key: k, value: v, line: line_cnt as nat }] },
        ));
        Ok(())
    }

    /// Scans `lines` of the file at `settings_file` into sections.
    fn scan_lines(&self, settings_file: &String, lines: &Vec<String>) -> (r: Result<Vec<Section>, String>)
        requires
            self.wf(),
            lines@.len() < usize::MAX,
        ensures
            ({
                let st = scan(self@.templates, settings_file@, views(lines@));
                match st.failure {
                    None => r is Ok && section_views(r->Ok_0@) == st.sections,
                    Some(m) => r is Err && r->Err_0@ == m,
                }
            }),
    {
        let ghost tpl = self@.templates;
        let ghost ls = views(lines@);
        let mut sections: Vec<Section> = Vec::new();
        let mut current = global_string();
        let mut i: usize = 0;
        assert(ls.take(0) =~= Seq::<Seq<char>>::empty());
        assert(section_views(sections@) =~= Seq::<SectionView>::empty());
        while i < lines.len()
            invariant
                self.wf(),
                tpl == self@.templates,
                ls == views(lines@),
                ls.len() == lines@.len(),
                lines@.len() < usize::MAX,
                i <= lines@.len(),
                scan(tpl, settings_file@, ls.take(i as int)).failure is None,
                scan(tpl, settings_file@, ls.take(i as int)).sections == section_views(sections@),
                scan(tpl, settings_file@, ls.take(i as int)).current == current@,
                sections_wf(section_views(sections@)),
            decreases lines@.len() - i,
        {
            let line_cnt = i + 1;
            proof {
                lemma_scan_wf(tpl, settings_file@, ls.take(i as int));
                assert(ls.take(line_cnt as int).drop_last() =~= ls.take(i as int));
                assert(ls.take(line_cnt as int).last() == lines@[i as int]@);
            }
            match line_type(&self.messages_table, &lines[i], line_cnt, settings_file) {
                LineType::EmptyLine => {},
                LineType::SectionLine(name) => {
                    current = name;
                },
                LineType::KeyAndValue(key, value) => {
                    match self.add_to_section(&mut sections, &current, key, value, line_cnt, settings_file) {
                        Ok(()) => {},
                        Err(m) => {
                            proof {
                                lemma_scan_failure_persists(tpl, settings_file@, ls, line_cnt as int);
                            }
                            return Err(m);
                        },
                    }
                },
                LineType::BadFormattedLine(m) => {
                    proof {
                        lemma_scan_failure_persists(tpl, settings_file@, ls, line_cnt as int);
                    }
                    return Err(m);
                },
            }
            i = line_cnt;
            proof {
                lemma_scan_wf(tpl, settings_file@, ls.take(i as int));
            }
        }
        assert(ls.take(i as int) =~= ls);
        Ok(sections)
    }

    /// Loads the sections of the file at `path`, whose reading went as
    /// `source` says. A store loads once: a second load fails with a
    /// diagnostic that names the first path and changes nothing. A failed
    /// load leaves the store as it was, unloaded. An empty path names no
    /// file, so it can only come with an opening error.
    pub fn load(&mut self, path: &str, source: FileRead) -> (r: Result<(), String>)
        requires
            old(self).wf(),
            source_fits(source),
            path@.len() > 0 || source is OpenError,
        ensures
            final(self).wf(),
            final(self)@.templates == old(self)@.templates,
            r is Ok ==> final(self)@.path.len() > 0,
            old(self)@.path.len() > 0 ==> r is Err && r->Err_0@ == fill(
                old(self)@.templates[ALREADY_INITIALIZED as int],
                seq![old(self)@.path],
            ) && final(self)@ == old(self)@,
            old(self)@.path.len() == 0 ==> match load_outcome(old(self)@.templates, path@, source) {
                Ok(secs) => r is Ok && final(self)@.path == path@ && final(self)@.sections == secs,
                Err(m) => r is Err && r->Err_0@ == m && final(self)@.path == old(self)@.path
                    && final(self)@.sections.len() == 0,
            },
    {
        if self.is_initialize() {
            let mut params: Vec<String> = Vec::new();
            params.push(self.path.clone());
            assert(views(params@) =~= seq![self@.path]);
            return Err(self.format_message(ALREADY_INITIALIZED, &params));
        }
        let path_str = String::from_str(path);
        let ghost src = source;
        let result = match source {
            FileRead::OpenError(e) => {
                let mut params: Vec<String> = Vec::new();
                params.push(path_str.clone());
                params.push(e);
                assert(views(params@) =~= seq![path@, e@]);
                Err(self.format_message(OPENING_FILE_ERROR, &params))
            },
            FileRead::Complete(lines) => self.scan_lines(&path_str, &lines),
            FileRead::ReadError(lines, e) => match self.scan_lines(&path_str, &lines) {
                Ok(_) => {
                    let mut params: Vec<String> = Vec::new();
                    params.push(path_str.clone());
                    params.push(decimal_string(lines.len() + 1));
                    params.push(e);
                    assert(views(params@) =~= seq![path@, decimal(lines@.len() + 1), e@]);
                    Err(self.format_message(READING_FILE_ERROR, &params))
                },
                Err(m) => Err(m),
            },
        };
        match result {
            Ok(sections) => {
                proof {
                    if let FileRead::Complete(lines) = src {
                        lemma_scan_wf(self@.templates, path@, views(lines@));
                    }
                }
                self.sections = sections;
                self.path = path_str;
                Ok(())
            },
            Err(m) => {
                self.unload();
                Err(m)
            },
        }
    }

    /// Drops every section.
    fn unload(&mut self)
        requires
            old(self).wf(),
        ensures
            final(self).wf(),
            final(self)@.path == old(self)@.path,
            final(self)@.templates == old(self)@.templates,
            final(self)@.sections.len() == 0,
    {
        self.sections.clear();
        assert(self@.sections =~= Seq::<SectionView>::empty());
    }

    /// The lines to write back to the file that was loaded, given its
    /// current `lines`: the lines of the entries rendered anew, the others
    /// untouched.
    pub fn rewrite_lines(&self, lines: Vec<String>) -> (r: Vec<String>)
        requires
            self.wf(),
            lines_within(self@.sections, lines@.len()),
        ensures
            views(r@) == rewritten(self@.sections, views(lines@)),
    {
        let ghost secs = self@.sections;
        let ghost orig = views(lines@);
        let mut out = lines;
        let mut i: usize = 0;
        while i < self.sections.len()
            invariant
                self.wf(),
                secs == self@.sections,
                orig.len() == out@.len(),
                lines_within(secs, orig.len()),
                i <= secs.len(),
                forall|a: int, b: int|
                    0 <= a < i && 0 <= b < secs[a].entries.len() ==> (#[trigger] out@[secs[a].entries[b].line - 1])@
                        == render(secs[a].entries[b].key, secs[a].entries[b].value, orig[secs[a].entries[b].line - 1]),
                forall|x: int| 0 <= x < orig.len() && !owned_before(secs, x, i as int, 0) ==> (#[trigger] out@[x])@ == orig[x],
            decreases secs.len() - i,
        {
            let section = &self.sections[i];
            assert(section@ == secs[i as int]);
            let mut j: usize = 0;
            while j < section.values.len()
                invariant
                    self.wf(),
                    secs == self@.sections,
                    section@ == secs[i as int],
                    i < secs.len(),
                    orig.len() == out@.len(),
                    lines_within(secs, orig.len()),
                    j <= secs[i as int].entries.len(),
                    forall|a: int, b: int|
                        0 <= a < secs.len() && 0 <= b < secs[a].entries.len() && (a < i || (a == i && b < j)) ==> (#[trigger] out@[secs[a].entries[b].line - 1])@
                            == render(secs[a].entries[b].key, secs[a].entries[b].value, orig[secs[a].entries[b].line - 1]),
                    forall|x: int| 0 <= x < orig.len() && !owned_before(secs, x, i as int, j as int) ==> (#[trigger] out@[x])@ == orig[x],
                decreases secs[i as int].entries.len() - j,
            {
                let kv = &section.values[j];
                assert(kv@ == secs[i as int].entries[j as int]);
                assert(1 <= secs[i as int].entries[j as int].line <= orig.len());
                let x = kv.line_cnt - 1;
                proof {
                    assert(1 <= secs[i as int].entries[j as int].line <= orig.len());
                    if owned_before(secs, x as int, i as int, j as int) {
                        let (a, b) = choose|a: int, b: int|
                            0 <= a < secs.len() && 0 <= b < secs[a].entries.len() && (a < i || (a == i && b < j))
                                && #[trigger] secs[a].entries[b].line == x + 1;
                        assert(secs[a].entries[b].line == secs[i as int].entries[j as int].line);
                    }
                }
                let text = render_line(&kv.key, &kv.value, &out[x]);
                let ghost prev = out@;
                out.set(x, text);
                proof {
                    assert forall|a: int, b: int|
                        0 <= a < secs.len() && 0 <= b < secs[a].entries.len() && (a < i || (a == i && b < j + 1)) implies (#[trigger] out@[secs[a].entries[b].line - 1])@
                            == render(secs[a].entries[b].key, secs[a].entries[b].value, orig[secs[a].entries[b].line - 1]) by {
                        if !(a == i && b == j) {
                            assert(secs[a].entries[b].line != secs[i as int].entries[j as int].line);
                            assert(out@[secs[a].entries[b].line - 1] == prev[secs[a].entries[b].line - 1]);
                        }
                    }
                    assert forall|y: int| 0 <= y < orig.len() && !owned_before(secs, y, i as int, j + 1) implies (#[trigger] out@[y])@ == orig[y] by {
                        if y == x {
                            assert(secs[i as int].entries[j as int].line == y + 1);
                            assert(owned_before(secs, y, i as int, j + 1));
                        } else {
                            if owned_before(secs, y, i as int, j as int) {
                                let (a, b) = choose|a: int, b: int|
                                    0 <= a < secs.len() && 0 <= b < secs[a].entries.len() && (a < i || (a == i && b < j))
                                        && #[trigger] secs[a].entries[b].line == y + 1;
                                assert(owned_before(secs, y, i as int, j + 1));
                            }
                            assert(out@[y] == prev[y]);
                        }
                    }
                }
                j = j + 1;
            }
            proof {
                assert forall|y: int| 0 <= y < orig.len() && !owned_before(secs, y, i + 1, 0) implies (#[trigger] out@[y])@ == orig[y] by {
                    if owned_before(secs, y, i as int, j as int) {
                        let (a, b) = choose|a: int, b: int|
                            0 <= a < secs.len() && 0 <= b < secs[a].entries.len() && (a < i || (a == i && b < j))
                                && #[trigger] secs[a].entries[b].line == y + 1;
                        assert(owned_before(secs, y, i + 1, 0));
                    }
                }
            }
            i = i + 1;
        }
        proof {
            assert forall|x: int| 0 <= x < orig.len() implies (#[trigger] views(out@)[x]) == rewritten(secs, orig)[x] by {
                if owns_line(secs, x) {
                    let (a, b) = choose|a: int, b: int|
                        0 <= a < secs.len() && 0 <= b < secs[a].entries.len() && #[trigger] secs[a].entries[b].line == x + 1;
                    lemma_owner_of(secs, x, a, b);
                    assert(out@[secs[a].entries[b].line - 1] == out@[x]);
                } else {
                    if owned_before(secs, x, i as int, 0) {
                        let (a, b) = choose|a: int, b: int|
                            0 <= a < secs.len() && 0 <= b < secs[a].entries.len() && (a < i || (a == i && b < 0))
                                && #[trigger] secs[a].entries[b].line == x + 1;
                        assert(owns_line(secs, x));
                    }
                }
            }
            assert(views(out@) =~= rewritten(secs, orig));
        }
        out
    }

    /// Whether every entry comes from one of the first `n` lines, so that
    /// `rewrite_lines` can be given `n` lines.
    pub fn covers_lines(&self, n: usize) -> (r: bool)
        requires
            self.wf(),
        ensures
            r == lines_within(self@.sections, n as nat),
    {
        let ghost secs = self@.sections;
        let mut i: usize = 0;
        while i < self.sections.len()
            invariant
                self.wf(),
                secs == self@.sections,
                i <= secs.len(),
                forall|a: int, b: int|
                    0 <= a < i && 0 <= b < secs[a].entries.len() ==> #[trigger] secs[a].entries[b].line <= n,
            decreases secs.len() - i,
        {
            let section = &self.sections[i];
            assert(section@ == secs[i as int]);
            let mut j: usize = 0;
            while j < section.values.len()
                invariant
                    self.wf(),
                    secs == self@.sections,
                    section@ == secs[i as int],
                    i < secs.len(),
                    j <= secs[i as int].entries.len(),
                    forall|a: int, b: int|
                        0 <= a < secs.len() && 0 <= b < secs[a].entries.len() && (a < i || (a == i && b < j)) ==> #[trigger] secs[a].entries[b].line <= n,
                decreases secs[i as int].entries.len() - j,
            {
                assert(section.values@[j as int]@ == secs[i as int].entries[j as int]);
                if section.values[j].line_cnt > n {
                    assert(!(1 <= secs[i as int].entries[j as int].line <= n));
                    return false;
                }
                j = j + 1;
            }
            i = i + 1;
        }
        true
    }

    /// A text dump of the store: its path, each section with its entries,
    /// and a closing rule.
    pub fn to_string(&self) -> (r: String)
        ensures
            r@ == settings_text(self@),
    {
        let ghost secs = self@.sections;
        let mut out: Vec<char> = Vec::new();
        push_str(&mut out, "Settings path: ");
        push_str(&mut out, self.path.as_str());
        push_str(&mut out, "\n");
        let ghost head = out@;
        let mut i: usize = 0;
        assert(secs.take(0) =~= Seq::<SectionView>::empty());
        assert(out@ =~= head + sections_text(secs.take(0)));
        while i < self.sections.len()
            invariant
                secs == self@.sections,
                i <= secs.len(),
                out@ == head + sections_text(secs.take(i as int)),
            decreases secs.len() - i,
        {
            let section = &self.sections[i];
            assert(section@ == secs[i as int]);
            let ghost es = secs[i as int].entries;
            push_str(&mut out, "[");
            push_str(&mut out, section.name.as_str());
            push_str(&mut out, "]\n");
            let ghost mid = out@;
            let mut j: usize = 0;
            assert(es.take(0) =~= Seq::<EntryView>::empty());
            assert(out@ =~= mid + entries_text(es.take(0)));
            while j < section.values.len()
                invariant
                    section@ == secs[i as int],
                    es == section@.entries,
                    j <= es.len(),
                    out@ == mid + entries_text(es.take(j as int)),
                decreases es.len() - j,
            {
                let kv = &section.values[j];
                assert(kv@ == es[j as int]);
                push_str(&mut out, "key: ");
                push_str(&mut out, kv.key.as_str());
                push_str(&mut out, ", value: ");
                push_str(&mut out, kv.value.as_str());
                push_str(&mut out, "\n");
                assert(es.take(j + 1).drop_last() =~= es.take(j as int));
                j = j + 1;
                assert(out@ =~= mid + entries_text(es.take(j as int)));
            }
            assert(es.take(j as int) =~= es);
            push_str(&mut out, "\n");
            assert(secs.take(i + 1).drop_last() =~= secs.take(i as int));
            i = i + 1;
            assert(out@ =~= head + sections_text(secs.take(i as int)));
        }
        assert(secs.take(i as int) =~= secs);
        push_str(&mut out, RULE_LINE);
        assert(out@ =~= settings_text(self@));
        string_of(&out, 0, out.len())
    }

    /// The sections, in the order they were first filled.
    pub fn sections(&self) -> (r: &Vec<Section>)
        ensures
            section_views(r@) == self@.sections,
    {
        &self.sections
    }

    /// The path of the loaded file; empty when nothing was loaded.
    pub fn path(&self) -> (r: &String)
        ensures
            r@ == self@.path,
    {
        &self.path
    }
}

} // verus!
