//! Properties of loading, lookups, updates and saving, stated over the
//! models of `settings` and proved.

use vstd::prelude::*;
use crate::line::{classify, content, global_name, tag_error, LineKind};
use crate::message::{
    fill, DUPLICATED_KEY, MISSING_ASSIGN_TAG, MISSING_END_SECTION_TAG, MISSING_KEY,
    MISSING_START_SECTION_TAG,
};
use crate::section::{key_index, keys_unique, lemma_key_index, EntryView, SectionView};
use crate::settings::{
    add_entry, default_templates, has_entry, has_section, lemma_owner_of, lemma_scan_failure_persists,
    lemma_scan_wf,
    lemma_section_index, lemma_set_value_wf, lines_within, lookup_error, owner_of, owns_line,
    render, rewritten, scan, section_index, sections_wf, set_value, step, value_of,
};
use crate::text::{decimal, find_from};

verus! {

/// Scanning one line more is one `step` on the scan of the lines before it.
proof fn lemma_scan_take(tpl: Seq<Seq<char>>, path: Seq<char>, lines: Seq<Seq<char>>, n: int)
    requires
        1 <= n <= lines.len(),
    ensures
        scan(tpl, path, lines.take(n)) == step(
            tpl,
            path,
            scan(tpl, path, lines.take(n - 1)),
            lines[n - 1],
            n as nat,
        ),
{
    assert(lines.take(n).drop_last() =~= lines.take(n - 1));
}

/// After a value is set, looking it up gives that value back.
pub proof fn law_set_then_get(secs: Seq<SectionView>, s: Seq<char>, k: Seq<char>, v: Seq<char>)
    requires
        sections_wf(secs),
        has_entry(secs, s, k),
    ensures
        value_of(set_value(secs, s, k, v), s, k) == Some(v),
{
    let i = section_index(secs, s);
    let es = secs[i].entries;
    let j = key_index(es, k);
    assert(secs[i].name == s);
    assert(es[j].key == k);
    let r = set_value(secs, s, k, v);
    lemma_set_value_wf(secs, s, k, v);
    lemma_section_index(r, s, i);
    assert(keys_unique(r[i].entries));
    lemma_key_index(r[i].entries, k, j);
}

/// A key that comes a second time in one section stops the load with the
/// duplicated-key diagnostic, which cites the line of the second occurrence
/// and, as "previously defined at", the earlier line of the first.
pub proof fn law_duplicate_key(
    tpl: Seq<Seq<char>>,
    path: Seq<char>,
    lines: Seq<Seq<char>>,
    n: int,
    k: Seq<char>,
    v: Seq<char>,
)
    requires
        1 <= n <= lines.len(),
        scan(tpl, path, lines.take(n - 1)).failure is None,
        classify(tpl, path, lines[n - 1], n as nat) == LineKind::Pair(k, v),
        has_entry(
            scan(tpl, path, lines.take(n - 1)).sections,
            scan(tpl, path, lines.take(n - 1)).current,
            k,
        ),
    ensures
        ({
            let st = scan(tpl, path, lines.take(n - 1));
            let es = st.sections[section_index(st.sections, st.current)].entries;
            let first = es[key_index(es, k)].line;
            &&& 1 <= first < n
            &&& scan(tpl, path, lines).failure == Some(
                fill(tpl[DUPLICATED_KEY as int], seq![k, decimal(n as nat), decimal(first), path]),
            )
        }),
{
    let st = scan(tpl, path, lines.take(n - 1));
    lemma_scan_wf(tpl, path, lines.take(n - 1));
    let i = section_index(st.sections, st.current);
    let es = st.sections[i].entries;
    assert(st.sections[i].name == st.current);
    let j = key_index(es, k);
    assert(es[j].key == k);
    assert(1 <= st.sections[i].entries[j].line <= n - 1);
    lemma_scan_take(tpl, path, lines, n);
    lemma_scan_failure_persists(tpl, path, lines, n);
}

/// A line that is not well formed stops the load with a diagnostic that
/// cites its own line number: a header without its closing or opening
/// bracket, a line without `=`, or an assignment without a key.
pub proof fn law_malformed_line(tpl: Seq<Seq<char>>, path: Seq<char>, lines: Seq<Seq<char>>, n: int)
    requires
        1 <= n <= lines.len(),
        scan(tpl, path, lines.take(n - 1)).failure is None,
    ensures
        ({
            let t = content(lines[n - 1]);
            let failure = scan(tpl, path, lines).failure;
            let p = find_from(t, '=', 0);
            &&& t.len() > 0 && t[0] == '[' && t.last() != ']' ==> failure == Some(
                tag_error(tpl, MISSING_END_SECTION_TAG as int, ']', n as nat, path),
            )
            &&& t.len() > 0 && t[0] != '[' && t.last() == ']' ==> failure == Some(
                tag_error(tpl, MISSING_START_SECTION_TAG as int, '[', n as nat, path),
            )
            &&& t.len() > 0 && t[0] != '[' && t.last() != ']' && p >= t.len() ==> failure == Some(
                tag_error(tpl, MISSING_ASSIGN_TAG as int, '=', n as nat, path),
            )
            &&& t.len() > 0 && t[0] != '[' && t.last() != ']' && p < t.len() && crate::text::trim(
                t.subrange(0, p),
            ).len() == 0 ==> failure == Some(fill(tpl[MISSING_KEY as int], seq![decimal(n as nat), path]))
        }),
{
    lemma_scan_take(tpl, path, lines, n);
    if classify(tpl, path, lines[n - 1], n as nat) is Malformed {
        lemma_scan_failure_persists(tpl, path, lines, n);
    }
}

/// A lookup of a missing section or key reports a non-empty diagnostic
/// with the default templates (and `get` then returns the default).
pub proof fn law_default_on_absence(secs: Seq<SectionView>, s: Seq<char>, k: Seq<char>)
    requires
        !has_entry(secs, s, k),
    ensures
        lookup_error(default_templates(), secs, s, k).len() > 0,
{
    reveal_strlit("Section '{}' not found");
    reveal_strlit("Section '{}' key '{}' not found");
    let tpl = default_templates();
    if !has_section(secs, s) {
        lemma_fill_len(tpl[6], seq![s]);
    } else {
        lemma_fill_len(tpl[7], seq![s, k]);
    }
}

/// Filling a template loses at most two characters per parameter.
pub proof fn lemma_fill_len(t: Seq<char>, params: Seq<Seq<char>>)
    ensures
        fill(t, params).len() >= t.len() - 2 * params.len(),
    decreases params.len(),
{
    if params.len() > 0 {
        let i = crate::message::find_placeholder(t, 0);
        if i < t.len() {
            lemma_find_placeholder_bound(t, 0);
            lemma_fill_len(t.subrange(i + 2, t.len() as int), params.drop_first());
        }
    }
}

proof fn lemma_find_placeholder_bound(s: Seq<char>, i: int)
    requires
        0 <= i,
    ensures
        crate::message::find_placeholder(s, i) < s.len() ==> i <= crate::message::find_placeholder(s, i)
            && crate::message::find_placeholder(s, i) + 2 <= s.len(),
    decreases s.len() - i,
{
    if i + 1 < s.len() && !(s[i] == '{' && s[i + 1] == '}') {
        lemma_find_placeholder_bound(s, i + 1);
    }
}

/// An empty header `[]` names the global section.
pub proof fn law_empty_header_is_global(tpl: Seq<Seq<char>>, path: Seq<char>, line: Seq<char>, n: nat)
    requires
        content(line) == seq!['[', ']'],
    ensures
        classify(tpl, path, line, n) == LineKind::Header(global_name()),
{
    assert(content(line).subrange(1, 1) =~= Seq::<char>::empty());
}

/// Before the first header, the current section is the global one.
pub proof fn law_global_before_header(tpl: Seq<Seq<char>>, path: Seq<char>, lines: Seq<Seq<char>>)
    requires
        forall|m: int| 0 <= m < lines.len() ==> !(#[trigger] classify(tpl, path, lines[m], (m + 1) as nat) is Header),
    ensures
        scan(tpl, path, lines).current == global_name(),
    decreases lines.len(),
{
    if lines.len() > 0 {
        let m = lines.len() - 1;
        assert(!(classify(tpl, path, lines[m], (m + 1) as nat) is Header));
        assert forall|q: int| 0 <= q < lines.drop_last().len() implies !(#[trigger] classify(
            tpl,
            path,
            lines.drop_last()[q],
            (q + 1) as nat,
        ) is Header) by {
            assert(lines.drop_last()[q] == lines[q]);
            assert(!(classify(tpl, path, lines[q], (q + 1) as nat) is Header));
        }
        law_global_before_header(tpl, path, lines.drop_last());
    }
}

/// A pair on a line that no header precedes is filed under the global
/// section.
pub proof fn law_pair_before_header_is_global(
    tpl: Seq<Seq<char>>,
    path: Seq<char>,
    lines: Seq<Seq<char>>,
    n: int,
    k: Seq<char>,
    v: Seq<char>,
)
    requires
        1 <= n <= lines.len(),
        forall|m: int| 0 <= m < n - 1 ==> !(#[trigger] classify(tpl, path, lines[m], (m + 1) as nat) is Header),
        scan(tpl, path, lines.take(n)).failure is None,
        classify(tpl, path, lines[n - 1], n as nat) == LineKind::Pair(k, v),
    ensures
        value_of(scan(tpl, path, lines.take(n)).sections, global_name(), k) == Some(v),
{
    let before = lines.take(n - 1);
    assert forall|m: int| 0 <= m < before.len() implies !(#[trigger] classify(tpl, path, before[m], (m + 1) as nat) is Header) by {
        assert(before[m] == lines[m]);
        assert(!(classify(tpl, path, lines[m], (m + 1) as nat) is Header));
    }
    law_global_before_header(tpl, path, before);
    lemma_scan_take(tpl, path, lines, n);
    let st = scan(tpl, path, before);
    lemma_scan_wf(tpl, path, before);
    assert(st.failure is None);
    law_added_pair_found(tpl, path, st.sections, st.current, k, v, n as nat);
}

/// Whether a section named `name` among `secs` holds the entry `e`.
pub open spec fn holds_entry(secs: Seq<SectionView>, name: Seq<char>, e: EntryView) -> bool {
    exists|a: int, b: int|
        0 <= a < secs.len() && 0 <= b < secs[a].entries.len() && secs[a].name == name
            && #[trigger] secs[a].entries[b] == e
}

proof fn lemma_add_entry_keeps(
    tpl: Seq<Seq<char>>,
    path: Seq<char>,
    secs: Seq<SectionView>,
    cur: Seq<char>,
    key: Seq<char>,
    value: Seq<char>,
    n: nat,
    name: Seq<char>,
    e: EntryView,
)
    requires
        holds_entry(secs, name, e),
        add_entry(tpl, path, secs, cur, key, value, n) is Ok,
    ensures
        holds_entry(add_entry(tpl, path, secs, cur, key, value, n)->Ok_0, name, e),
{
    let r = add_entry(tpl, path, secs, cur, key, value, n)->Ok_0;
    let (a, b) = choose|a: int, b: int|
        0 <= a < secs.len() && 0 <= b < secs[a].entries.len() && secs[a].name == name
            && #[trigger] secs[a].entries[b] == e;
    if has_section(secs, cur) {
        let i = section_index(secs, cur);
        assert(secs[i].name == cur);
        assert(r[a].entries[b] == e);
    } else {
        assert(r[a] == secs[a]);
    }
    assert(r[a].entries[b] == e);
}

/// An entry that a scan holds stays there while later lines load.
proof fn lemma_scan_keeps(
    tpl: Seq<Seq<char>>,
    path: Seq<char>,
    lines: Seq<Seq<char>>,
    m: int,
    name: Seq<char>,
    e: EntryView,
)
    requires
        0 <= m <= lines.len(),
        holds_entry(scan(tpl, path, lines.take(m)).sections, name, e),
        scan(tpl, path, lines).failure is None,
    ensures
        holds_entry(scan(tpl, path, lines).sections, name, e),
    decreases lines.len(),
{
    if lines.len() == m {
        assert(lines.take(m) =~= lines);
    } else {
        let st = scan(tpl, path, lines.drop_last());
        assert(lines.drop_last().take(m) =~= lines.take(m));
        assert(st.failure is None);
        lemma_scan_keeps(tpl, path, lines.drop_last(), m, name, e);
        match classify(tpl, path, lines.last(), lines.len()) {
            LineKind::Pair(k, v) => {
                lemma_add_entry_keeps(tpl, path, st.sections, st.current, k, v, lines.len(), name, e);
            },
            _ => {},
        }
    }
}

/// In a file that loads, a pair on line `n` with no header before it is an
/// entry of the global section, with its key, its value and line `n`.
pub proof fn law_file_pair_before_header_is_global(
    tpl: Seq<Seq<char>>,
    path: Seq<char>,
    lines: Seq<Seq<char>>,
    n: int,
    k: Seq<char>,
    v: Seq<char>,
)
    requires
        1 <= n <= lines.len(),
        forall|m: int| 0 <= m < n - 1 ==> !(#[trigger] classify(tpl, path, lines[m], (m + 1) as nat) is Header),
        scan(tpl, path, lines).failure is None,
        classify(tpl, path, lines[n - 1], n as nat) == LineKind::Pair(k, v),
    ensures
        holds_entry(scan(tpl, path, lines).sections, global_name(), EntryView { key: k, value: v, line: n as nat }),
{
    let e = EntryView { key: k, value: v, line: n as nat };
    if scan(tpl, path, lines.take(n)).failure is Some {
        lemma_scan_failure_persists(tpl, path, lines, n);
    }
    let before = lines.take(n - 1);
    assert forall|m: int| 0 <= m < before.len() implies !(#[trigger] classify(tpl, path, before[m], (m + 1) as nat) is Header) by {
        assert(before[m] == lines[m]);
        assert(!(classify(tpl, path, lines[m], (m + 1) as nat) is Header));
    }
    law_global_before_header(tpl, path, before);
    lemma_scan_take(tpl, path, lines, n);
    let st = scan(tpl, path, before);
    let secs = st.sections;
    let r = scan(tpl, path, lines.take(n)).sections;
    if has_section(secs, global_name()) {
        let i = section_index(secs, global_name());
        assert(secs[i].name == global_name());
        assert(r[i].entries[secs[i].entries.len() as int] == e);
    } else {
        assert(r[secs.len() as int].entries[0] == e);
    }
    lemma_scan_keeps(tpl, path, lines, n, global_name(), e);
}

/// A pair that is added can be looked up in its section.
pub proof fn law_added_pair_found(
    tpl: Seq<Seq<char>>,
    path: Seq<char>,
    secs: Seq<SectionView>,
    cur: Seq<char>,
    key: Seq<char>,
    value: Seq<char>,
    n: nat,
)
    requires
        sections_wf(secs),
        n >= 1,
        lines_within(secs, (n - 1) as nat),
        add_entry(tpl, path, secs, cur, key, value, n) is Ok,
    ensures
        value_of(add_entry(tpl, path, secs, cur, key, value, n)->Ok_0, cur, key) == Some(value),
{
    crate::settings::lemma_add_entry_wf(tpl, path, secs, cur, key, value, n);
    let r = add_entry(tpl, path, secs, cur, key, value, n)->Ok_0;
    if has_section(secs, cur) {
        let i = section_index(secs, cur);
        assert(secs[i].name == cur);
        lemma_section_index(r, cur, i);
        lemma_key_index(r[i].entries, key, secs[i].entries.len() as int);
    } else {
        lemma_section_index(r, cur, secs.len() as int);
        lemma_key_index(r[secs.len() as int].entries, key, 0);
    }
}

/// Saving what was loaded, with nothing changed, gives back the lines as
/// they were, provided each line that holds a pair is written as
/// `key = value` (a space each side of `=`, and a space before any comment).
pub proof fn law_save_unchanged(tpl: Seq<Seq<char>>, path: Seq<char>, lines: Seq<Seq<char>>)
    requires
        scan(tpl, path, lines).failure is None,
        forall|x: int|
            0 <= x < lines.len() && owns_line(scan(tpl, path, lines).sections, x) ==> render(
                owner_of(scan(tpl, path, lines).sections, x).key,
                owner_of(scan(tpl, path, lines).sections, x).value,
                lines[x],
            ) == #[trigger] lines[x],
    ensures
        rewritten(scan(tpl, path, lines).sections, lines) == lines,
{
    assert(rewritten(scan(tpl, path, lines).sections, lines) =~= lines);
}

/// After one value is changed, saving rewrites the line of that pair as
/// `key = value` with the new value and the line's comment kept, and leaves
/// every line that holds no pair as it was; every other line comes out as
/// a save with nothing changed writes it, so with `law_save_unchanged` a
/// line already written as `key = value` stays byte for byte the same.
pub proof fn law_save_after_set(
    secs: Seq<SectionView>,
    lines: Seq<Seq<char>>,
    s: Seq<char>,
    k: Seq<char>,
    v: Seq<char>,
)
    requires
        sections_wf(secs),
        lines_within(secs, lines.len()),
        has_entry(secs, s, k),
    ensures
        ({
            let es = secs[section_index(secs, s)].entries;
            let x = es[key_index(es, k)].line - 1;
            let out = rewritten(set_value(secs, s, k, v), lines);
            &&& out.len() == lines.len()
            &&& 0 <= x < lines.len()
            &&& out[x] == render(k, v, lines[x])
            &&& forall|y: int| 0 <= y < lines.len() && !owns_line(secs, y) ==> #[trigger] out[y] == lines[y]
            &&& forall|y: int| 0 <= y < lines.len() && y != x ==> #[trigger] out[y] == rewritten(secs, lines)[y]
        }),
{
    let i = section_index(secs, s);
    let es = secs[i].entries;
    let j = key_index(es, k);
    assert(secs[i].name == s);
    assert(es[j].key == k);
    let r = set_value(secs, s, k, v);
    lemma_set_value_wf(secs, s, k, v);
    let x = es[j].line - 1;
    assert(1 <= secs[i].entries[j].line <= lines.len());
    assert(r[i].entries[j].line == x + 1);
    lemma_owner_of(r, x, i, j);
    assert forall|y: int| 0 <= y < lines.len() && !owns_line(secs, y) implies #[trigger] rewritten(r, lines)[y] == lines[y] by {
        if owns_line(r, y) {
            let (a, b) = choose|a: int, b: int|
                0 <= a < r.len() && 0 <= b < r[a].entries.len() && #[trigger] r[a].entries[b].line == y + 1;
            assert(secs[a].entries[b].line == y + 1);
        }
    }
    assert forall|y: int| 0 <= y < lines.len() && y != x implies #[trigger] rewritten(r, lines)[y]
        == rewritten(secs, lines)[y] by {
        if owns_line(secs, y) {
            let (a, b) = choose|a: int, b: int|
                0 <= a < secs.len() && 0 <= b < secs[a].entries.len() && #[trigger] secs[a].entries[b].line == y + 1;
            assert(r[a].entries[b].line == y + 1);
            assert(!(a == i && b == j));
            assert(r[a].entries[b] == secs[a].entries[b]);
            lemma_owner_of(secs, y, a, b);
            lemma_owner_of(r, y, a, b);
        } else if owns_line(r, y) {
            let (a, b) = choose|a: int, b: int|
                0 <= a < r.len() && 0 <= b < r[a].entries.len() && #[trigger] r[a].entries[b].line == y + 1;
            assert(secs[a].entries[b].line == y + 1);
        }
    }
}

} // verus!
