//! Classification of one line of a settings file.

use vstd::prelude::*;
use crate::message::{
    fill, fill_template, views, MESSAGES_NUMBER, MISSING_ASSIGN_TAG, MISSING_END_SECTION_TAG,
    MISSING_KEY, MISSING_START_SECTION_TAG,
};
use crate::text::{
    char_string, chars_of, decimal, decimal_string, drop_char, find_char, find_from, push_range,
    string_of, trim, trimmed, without_char,
};

verus! {

/// Name of the section that holds the pairs found before any header,
/// or under an empty header `[]`.
pub const GLOBAL_SECTION: &'static str = "GLOBAL";

pub open spec fn global_name() -> Seq<char> {
    seq!['G', 'L', 'O', 'B', 'A', 'L']
}

/// The text of a line once its comment (from the first `#`) is cut off
/// and surrounding whitespace is trimmed.
pub open spec fn content(line: Seq<char>) -> Seq<char> {
    trim(line.subrange(0, find_from(line, '#', 0)))
}

/// What one line of a settings file is.
pub enum LineKind {
    Empty,
    Header(Seq<char>),
    Pair(Seq<char>, Seq<char>),
    Malformed(Seq<char>),
}

/// The diagnostic for a line that is not well formed: template `idx` of
/// `tpl`, filled with the missing tag (if any), the line number and the path.
pub open spec fn tag_error(tpl: Seq<Seq<char>>, idx: int, tag: char, n: nat, path: Seq<char>) -> Seq<char> {
    fill(tpl[idx], seq![seq![tag], decimal(n), path])
}

/// The classification of line number `n` of the file at `path`, with the
/// diagnostics rendered through the templates `tpl`.
pub open spec fn classify(tpl: Seq<Seq<char>>, path: Seq<char>, line: Seq<char>, n: nat) -> LineKind {
    let t = content(line);
    if t.len() == 0 {
        LineKind::Empty
    } else {
        let starts = t[0] == '[';
        let ends = t.last() == ']';
        if starts && ends {
            let name = t.subrange(1, t.len() - 1);
            LineKind::Header(if name.len() == 0 { global_name() } else { name })
        } else if starts {
            LineKind::Malformed(tag_error(tpl, MISSING_END_SECTION_TAG as int, ']', n, path))
        } else if ends {
            LineKind::Malformed(tag_error(tpl, MISSING_START_SECTION_TAG as int, '[', n, path))
        } else {
            let p = find_from(t, '=', 0);
            if p >= t.len() {
                LineKind::Malformed(tag_error(tpl, MISSING_ASSIGN_TAG as int, '=', n, path))
            } else {
                let key = trim(t.subrange(0, p));
                let value = trim(drop_char(t.subrange(p, t.len() as int), '='));
                if key.len() == 0 {
                    LineKind::Malformed(fill(tpl[MISSING_KEY as int], seq![decimal(n), path]))
                } else {
                    LineKind::Pair(key, value)
                }
            }
        }
    }
}

/// One classified line.
pub enum LineType {
    EmptyLine,
    SectionLine(String),
    KeyAndValue(String, String),
    BadFormattedLine(String),
}

impl View for LineType {
    type V = LineKind;

    open spec fn view(&self) -> LineKind {
        match self {
            LineType::EmptyLine => LineKind::Empty,
            LineType::SectionLine(name) => LineKind::Header(name@),
            LineType::KeyAndValue(k, v) => LineKind::Pair(k@, v@),
            LineType::BadFormattedLine(e) => LineKind::Malformed(e@),
        }
    }
}

/// `GLOBAL_SECTION` as a `String`.
pub fn global_string() -> (r: String)
    ensures
        r@ == global_name(),
{
    let mut v: Vec<char> = Vec::new();
    v.push('G');
    v.push('L');
    v.push('O');
    v.push('B');
    v.push('A');
    v.push('L');
    assert(v@ =~= global_name());
    string_of(&v, 0, v.len())
}

fn tag_message(
    messages: &Vec<String>,
    idx: usize,
    tag: char,
    line_cnt: usize,
    settings_file: &String,
) -> (r: String)
    requires
        idx < messages@.len(),
    ensures
        r@ == tag_error(views(messages@), idx as int, tag, line_cnt as nat, settings_file@),
{
    let mut params: Vec<String> = Vec::new();
    params.push(char_string(tag));
    params.push(decimal_string(line_cnt));
    params.push(settings_file.clone());
    assert(views(params@) =~= seq![seq![tag], decimal(line_cnt as nat), settings_file@]);
    fill_template(&messages[idx], &params)
}

/// Classifies `line_text`, line number `line_cnt` of the file at
/// `settings_file`, rendering any diagnostic through `messages`.
pub fn line_type(messages: &Vec<String>, line_text: &String, line_cnt: usize, settings_file: &String) -> (r: LineType)
    requires
        messages@.len() == MESSAGES_NUMBER,
    ensures
        r@ == classify(views(messages@), settings_file@, line_text@, line_cnt as nat),
{
    let chars = chars_of(line_text.as_str());
    let cut = find_char(&chars, '#');
    let mut head: Vec<char> = Vec::new();
    push_range(&mut head, &chars, 0, cut);
    assert(head@ =~= line_text@.subrange(0, find_from(line_text@, '#', 0)));
    let t = trimmed(&head);
    if t.len() == 0 {
        return LineType::EmptyLine;
    }
    let starts = t[0] == '[';
    let ends = t[t.len() - 1] == ']';
    if starts && ends {
        if t.len() == 2 {
            return LineType::SectionLine(global_string());
        }
        return LineType::SectionLine(string_of(&t, 1, t.len() - 1));
    } else if starts {
        return LineType::BadFormattedLine(
            tag_message(messages, MISSING_END_SECTION_TAG, ']', line_cnt, settings_file),
        );
    } else if ends {
        return LineType::BadFormattedLine(
            tag_message(messages, MISSING_START_SECTION_TAG, '[', line_cnt, settings_file),
        );
    }
    let p = find_char(&t, '=');
    if p >= t.len() {
        return LineType::BadFormattedLine(
            tag_message(messages, MISSING_ASSIGN_TAG, '=', line_cnt, settings_file),
        );
    }
    let mut key_part: Vec<char> = Vec::new();
    push_range(&mut key_part, &t, 0, p);
    let mut rest: Vec<char> = Vec::new();
    push_range(&mut rest, &t, p, t.len());
    assert(key_part@ =~= t@.subrange(0, p as int));
    assert(rest@ =~= t@.subrange(p as int, t@.len() as int));
    let key = trimmed(&key_part);
    let value = trimmed(&without_char(&rest, '='));
    if key.len() == 0 {
        let mut params: Vec<String> = Vec::new();
        params.push(decimal_string(line_cnt));
        params.push(settings_file.clone());
        assert(views(params@) =~= seq![decimal(line_cnt as nat), settings_file@]);
        return LineType::BadFormattedLine(fill_template(&messages[MISSING_KEY], &params));
    }
    assert(key@.subrange(0, key@.len() as int) =~= key@);
    assert(value@.subrange(0, value@.len() as int) =~= value@);
    LineType::KeyAndValue(string_of(&key, 0, key.len()), string_of(&value, 0, value.len()))
}

} // verus!
