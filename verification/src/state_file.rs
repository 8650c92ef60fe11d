//! The state file: one record per line, fields separated by tabs.
//!
//! Saving writes the active workspace, the workspace, the active tab and one
//! record per tab; loading reads back the tabs of the active workspace.
use vstd::prelude::*;
use vstd::string::*;
use crate::browser::{ShellTab, TabView, tabs_view};
use crate::escape::{escape, unescape, escape_state, unescape_chars, lemma_escape_field_safe, lemma_unescape_escape, is_field_safe};
use crate::text::{
    split_on, join_with, lines, parse_usize, parse_or_one, decimal, strip_cr, count_nonempty,
    chars_of, lines_of, split_chars, chars_equal, parse_usize_chars, push_decimal, join_strings,
    lemma_split_join, lemma_lines_join, lemma_join_excludes, lemma_join_last, lemma_parse_decimal,
    lemma_lines_count_nonempty, lemma_count_nonempty_take, lemma_decimal, is_digit,
};

verus! {

/// First field of the record that names the active workspace.
pub const ACTIVE_WORKSPACE_KEY: &'static str = "active_workspace";

/// First field of the record that names a workspace.
pub const WORKSPACE_KEY: &'static str = "workspace";

/// First field of the record that names the active tab of a workspace.
pub const ACTIVE_TAB_KEY: &'static str = "active_tab";

/// First field of the record of a tab.
pub const TAB_KEY: &'static str = "tab";

/// The one workspace that this shell writes.
pub const WORKSPACE_ID: &'static str = "1";

/// The name of that workspace.
pub const WORKSPACE_NAME: &'static str = "Space 1";

/// The pinned flag of every tab this shell writes (not pinned).
pub const NOT_PINNED: &'static str = "0";

/// What has been read of a state file after some of its lines.
pub struct LoadScan {
    pub active_workspace: usize,
    pub active_tab_id: Option<usize>,
    pub tabs: Seq<TabView>,
}

/// The state before any line is read: workspace 1, no active tab, no tabs.
pub open spec fn scan_start() -> LoadScan {
    LoadScan { active_workspace: 1, active_tab_id: None, tabs: Seq::empty() }
}

/// Reading one line. A line `active_workspace <id>` selects the workspace
/// (1 where the id is no number); `active_tab <workspace> <tab>` records the
/// active tab of the selected workspace (none where `<tab>` is no number); a
/// line of six or more fields `tab <workspace> <folder> <pinned> <title>
/// <url> ...` of the selected workspace adds a tab, numbered from 1 in the
/// order read; every other line is ignored.
pub open spec fn scan_line(st: LoadScan, line: Seq<char>) -> LoadScan {
    let parts = split_on(line, '\t');
    if parts.len() == 2 && parts[0] == ACTIVE_WORKSPACE_KEY@ {
        LoadScan { active_workspace: parse_or_one(parts[1]), ..st }
    } else if parts.len() == 3 && parts[0] == ACTIVE_TAB_KEY@ {
        if parse_or_one(parts[1]) == st.active_workspace {
            LoadScan { active_tab_id: parse_usize(parts[2]), ..st }
        } else {
            st
        }
    } else if parts.len() >= 6 && parts[0] == TAB_KEY@ && parse_or_one(parts[1])
        == st.active_workspace {
        LoadScan {
            tabs: st.tabs.push(
                TabView {
                    id: (st.tabs.len() + 1) as usize,
                    title: unescape(parts[4]),
                    url: unescape(parts[5]),
                },
            ),
            ..st
        }
    } else {
        st
    }
}

/// Reading the lines in order.
pub open spec fn scan_lines(ls: Seq<Seq<char>>) -> LoadScan
    decreases ls.len(),
{
    if ls.len() == 0 {
        scan_start()
    } else {
        scan_line(scan_lines(ls.drop_last()), ls.last())
    }
}

/// Reading the whole text of a state file.
pub open spec fn scan_text(raw: Seq<char>) -> LoadScan {
    scan_lines(lines(raw))
}

/// The record of one tab.
pub open spec fn tab_record(t: TabView) -> Seq<char> {
    join_with(
        seq![
            TAB_KEY@,
            WORKSPACE_ID@,
            Seq::empty(),
            NOT_PINNED@,
            escape(t.title),
            escape(t.url),
            Seq::empty(),
        ],
        '\t',
    )
}

/// The records that saving writes before those of the tabs: the active
/// workspace, the workspace, and, where the index names a tab, the active
/// tab by the number it carries once loaded (its place, counted from 1).
pub open spec fn head_records(tabs: Seq<TabView>, active_index: int) -> Seq<Seq<char>> {
    let head = seq![
        join_with(seq![ACTIVE_WORKSPACE_KEY@, WORKSPACE_ID@], '\t'),
        join_with(seq![WORKSPACE_KEY@, WORKSPACE_ID@, escape(WORKSPACE_NAME@)], '\t'),
    ];
    if 0 <= active_index < tabs.len() {
        head.push(
            join_with(
                seq![ACTIVE_TAB_KEY@, WORKSPACE_ID@, decimal((active_index + 1) as nat)],
                '\t',
            ),
        )
    } else {
        head
    }
}

/// The records that saving writes for these tabs and this active index.
pub open spec fn state_records(tabs: Seq<TabView>, active_index: int) -> Seq<Seq<char>> {
    head_records(tabs, active_index) + tabs.map_values(|t: TabView| tab_record(t))
}

/// The text that saving writes: the records, one per line.
pub open spec fn state_text(tabs: Seq<TabView>, active_index: int) -> Seq<char> {
    join_with(state_records(tabs, active_index), '\n')
}

/// The tabs numbered 1, 2, ... in order, titles and URLs kept.
pub open spec fn renumbered(tabs: Seq<TabView>) -> Seq<TabView> {
    Seq::new(
        tabs.len(),
        |i: int| TabView { id: (i + 1) as usize, title: tabs[i].title, url: tabs[i].url },
    )
}

/// `parse().unwrap_or(1)` on characters.
fn parse_or_one_chars(s: &Vec<char>) -> (n: usize)
    ensures
        n == parse_or_one(s@),
{
    match parse_usize_chars(s) {
        Some(n) => n,
        None => 1,
    }
}

proof fn lemma_deep_view_at(v: &Vec<Vec<char>>, k: int)
    requires
        0 <= k < v@.len(),
    ensures
        v@[k]@ == v.deep_view()[k],
{
    assert(v@[k]@ =~= v.deep_view()[k]);
}

/// Reads the tabs of the active workspace, and the id of its active tab, from
/// the text of a state file.
pub fn scan_state_file(raw: &str) -> (loaded: (Vec<ShellTab>, Option<usize>))
    ensures
        tabs_view(loaded.0@) == scan_text(raw@).tabs,
        loaded.1 == scan_text(raw@).active_tab_id,
        loaded.0@.len() < usize::MAX,
{
    let v = chars_of(raw);
    let vlen = v.len();
    let ls = lines_of(&v);
    let ghost all = lines(raw@);
    proof {
        lemma_lines_count_nonempty(raw@);
        assert(all.take(all.len() as int) =~= all);
        assert(all.take(0) =~= Seq::<Seq<char>>::empty());
    }
    let mut tabs: Vec<ShellTab> = Vec::new();
    let mut active_workspace: usize = 1;
    let mut active_tab_id: Option<usize> = None;
    let mut i: usize = 0;
    while i < ls.len()
        invariant
            ls.deep_view() == all,
            all == lines(raw@),
            v@ == raw@,
            vlen == v@.len(),
            2 * count_nonempty(all) <= v@.len() + 1,
            i <= all.len(),
            tabs@.len() <= count_nonempty(all.take(i as int)),
            ({
                let st = scan_lines(all.take(i as int));
                &&& st.active_workspace == active_workspace
                &&& st.active_tab_id == active_tab_id
                &&& st.tabs == tabs_view(tabs@)
            }),
        decreases all.len() - i,
    {
        proof {
            lemma_deep_view_at(&ls, i as int);
            lemma_count_nonempty_take(all, i as int);
            assert(all.take(i + 1).drop_last() =~= all.take(i as int));
            assert(all.take(i + 1).last() == all[i as int]);
            lemma_count_nonempty_shrink_bound(all, i as int);
        }
        let line = &ls[i];
        let parts = split_chars(line, '\t');
        let ghost sp = split_on(line@, '\t');
        proof {
            if parts@.len() > 0 {
                lemma_deep_view_at(&parts, 0);
            }
            if parts@.len() > 1 {
                lemma_deep_view_at(&parts, 1);
            }
            if parts@.len() > 2 {
                lemma_deep_view_at(&parts, 2);
            }
            if parts@.len() > 5 {
                lemma_deep_view_at(&parts, 4);
                lemma_deep_view_at(&parts, 5);
            }
        }
        if parts.len() == 2 && chars_equal(&parts[0], ACTIVE_WORKSPACE_KEY) {
            active_workspace = parse_or_one_chars(&parts[1]);
        } else if parts.len() == 3 && chars_equal(&parts[0], ACTIVE_TAB_KEY) {
            if parse_or_one_chars(&parts[1]) == active_workspace {
                active_tab_id = parse_usize_chars(&parts[2]);
            }
        } else if parts.len() >= 6 && chars_equal(&parts[0], TAB_KEY) && parse_or_one_chars(
            &parts[1],
        ) == active_workspace {
            proof {
                // a line of several fields is not empty
                if line@.len() == 0 {
                    assert(split_on(line@, '\t') == seq![Seq::<char>::empty()]);
                }
            }
            let id = tabs.len() + 1;
            let title = unescape_chars(&parts[4]);
            let url = unescape_chars(&parts[5]);
            let ghost before = tabs@;
            tabs.push(ShellTab { id, title, url });
            assert(tabs_view(tabs@) =~= tabs_view(before).push(
                TabView { id, title: unescape(sp[4]), url: unescape(sp[5]) },
            ));
        }
        i = i + 1;
    }
    assert(all.take(i as int) =~= all);
    (tabs, active_tab_id)
}

/// A bound used by `scan_state_file`: the count of non-empty lines so far is
/// at most the count over all lines.
proof fn lemma_count_nonempty_shrink_bound(all: Seq<Seq<char>>, i: int)
    requires
        0 <= i < all.len(),
    ensures
        count_nonempty(all.take(i + 1)) <= count_nonempty(all),
    decreases all.len() - i,
{
    if i + 1 < all.len() {
        lemma_count_nonempty_shrink_bound(all, i + 1);
        lemma_count_nonempty_take(all, i + 1);
    } else {
        assert(all.take(i + 1) =~= all);
    }
}

/// The record of one tab, as text.
fn tab_record_text(tab: &ShellTab) -> (record: String)
    ensures
        record@ == tab_record(tab@),
{
    let mut fields: Vec<String> = Vec::new();
    fields.push(String::from_str(TAB_KEY));
    fields.push(String::from_str(WORKSPACE_ID));
    fields.push(String::new());
    fields.push(String::from_str(NOT_PINNED));
    fields.push(escape_state(tab.title.as_str()));
    fields.push(escape_state(tab.url.as_str()));
    fields.push(String::new());
    let record = join_strings(&fields, '\t');
    assert(fields.deep_view() =~~= seq![
        TAB_KEY@,
        WORKSPACE_ID@,
        Seq::empty(),
        NOT_PINNED@,
        escape(tab@.title),
        escape(tab@.url),
        Seq::empty(),
    ]);
    record
}

/// The records written before those of the tabs.
fn head_record_texts(tabs: &Vec<ShellTab>, active_index: usize) -> (records: Vec<String>)
    ensures
        records.deep_view() == head_records(tabs_view(tabs@), active_index as int),
{
    let ghost tv = tabs_view(tabs@);
    let mut records: Vec<String> = Vec::new();

    let mut fields: Vec<String> = Vec::new();
    fields.push(String::from_str(ACTIVE_WORKSPACE_KEY));
    fields.push(String::from_str(WORKSPACE_ID));
    assert(fields.deep_view() =~~= seq![ACTIVE_WORKSPACE_KEY@, WORKSPACE_ID@]);
    let first = join_strings(&fields, '\t');

    let mut fields: Vec<String> = Vec::new();
    fields.push(String::from_str(WORKSPACE_KEY));
    fields.push(String::from_str(WORKSPACE_ID));
    fields.push(escape_state(WORKSPACE_NAME));
    assert(fields.deep_view() =~~= seq![WORKSPACE_KEY@, WORKSPACE_ID@, escape(WORKSPACE_NAME@)]);
    let second = join_strings(&fields, '\t');

    records.push(first);
    records.push(second);
    if active_index < tabs.len() {
        let mut id_text = String::new();
        push_decimal(&mut id_text, active_index + 1);
        let mut fields: Vec<String> = Vec::new();
        fields.push(String::from_str(ACTIVE_TAB_KEY));
        fields.push(String::from_str(WORKSPACE_ID));
        fields.push(id_text);
        assert(fields.deep_view() =~~= seq![
            ACTIVE_TAB_KEY@,
            WORKSPACE_ID@,
            decimal((active_index + 1) as nat),
        ]);
        let third = join_strings(&fields, '\t');
        records.push(third);
    }
    assert(records.deep_view() =~~= head_records(tv, active_index as int));
    records
}

/// The text that saving writes for these tabs and this active index.
pub fn state_file_contents(tabs: &Vec<ShellTab>, active_index: usize) -> (text: String)
    ensures
        text@ == state_text(tabs_view(tabs@), active_index as int),
{
    let ghost tv = tabs_view(tabs@);
    let ghost all = state_records(tv, active_index as int);
    let mut records = head_record_texts(tabs, active_index);
    let ghost head = records.deep_view();
    assert(all.take(head.len() as int) =~= head);
    let mut i: usize = 0;
    while i < tabs.len()
        invariant
            tv == tabs_view(tabs@),
            all == state_records(tv, active_index as int),
            head == head_records(tv, active_index as int),
            i <= tabs@.len(),
            records.deep_view() == all.take(head.len() + i),
        decreases tabs@.len() - i,
    {
        let record = tab_record_text(&tabs[i]);
        let ghost before = records.deep_view();
        records.push(record);
        assert(records.deep_view() =~~= before.push(record@));
        assert(all[head.len() + i] == tab_record(tv[i as int]));
        assert(all.take(head.len() + i + 1) =~= all.take(head.len() + i).push(all[head.len() + i]));
        i = i + 1;
    }
    assert(all.take(head.len() + i) =~= all);
    join_strings(&records, '\n')
}

/// A record made of at least two fields free of separators splits back into
/// its fields, and holds no line break.
proof fn lemma_record(fields: Seq<Seq<char>>)
    requires
        fields.len() >= 2,
        forall|i: int| 0 <= i < fields.len() ==> is_field_safe(#[trigger] fields[i]),
    ensures
        split_on(join_with(fields, '\t'), '\t') == fields,
        !join_with(fields, '\t').contains('\n'),
        !join_with(fields, '\t').contains('\r'),
        join_with(fields, '\t').len() > 0,
{
    assert forall|i: int| 0 <= i < fields.len() implies !(#[trigger] fields[i]).contains('\t') by {
        assert(is_field_safe(fields[i]));
    }
    assert forall|i: int| 0 <= i < fields.len() implies !(#[trigger] fields[i]).contains('\n') by {
        assert(is_field_safe(fields[i]));
    }
    assert forall|i: int| 0 <= i < fields.len() implies !(#[trigger] fields[i]).contains('\r') by {
        assert(is_field_safe(fields[i]));
    }
    lemma_split_join(fields, '\t');
    lemma_join_excludes(fields, '\t', '\n');
    lemma_join_excludes(fields, '\t', '\r');
    lemma_join_last(fields, '\t');
}

/// The fixed fields hold no separator, and `1` is the number 1.
proof fn lemma_fixed_fields()
    ensures
        is_field_safe(ACTIVE_WORKSPACE_KEY@),
        is_field_safe(WORKSPACE_KEY@),
        is_field_safe(ACTIVE_TAB_KEY@),
        is_field_safe(TAB_KEY@),
        is_field_safe(WORKSPACE_ID@),
        is_field_safe(NOT_PINNED@),
        is_field_safe(Seq::<char>::empty()),
        parse_or_one(WORKSPACE_ID@) == 1,
        ACTIVE_WORKSPACE_KEY@ != ACTIVE_TAB_KEY@,
        ACTIVE_WORKSPACE_KEY@ != TAB_KEY@,
        WORKSPACE_KEY@ != ACTIVE_WORKSPACE_KEY@,
        WORKSPACE_KEY@ != ACTIVE_TAB_KEY@,
        WORKSPACE_KEY@ != TAB_KEY@,
        ACTIVE_TAB_KEY@ != TAB_KEY@,
{
    reveal_strlit("active_workspace");
    reveal_strlit("workspace");
    reveal_strlit("active_tab");
    reveal_strlit("tab");
    reveal_strlit("1");
    reveal_strlit("0");
    lemma_parse_decimal(1);
    assert(WORKSPACE_ID@ =~= decimal(1));
}

/// A decimal number holds no separator.
proof fn lemma_decimal_field(n: nat)
    ensures
        is_field_safe(decimal(n)),
{
    lemma_decimal(n);
    let d = decimal(n);
    assert(!is_digit('\t') && !is_digit('\n') && !is_digit('\r'));
    assert forall|x: char| !is_digit(x) implies !d.contains(x) by {
        if d.contains(x) {
            let k = choose|k: int| 0 <= k < d.len() && d[k] == x;
            assert(is_digit(d[k]));
        }
    }
}

/// Reading the records of the tabs after the head records.
proof fn lemma_scan_tab_records(head: Seq<Seq<char>>, tabs: Seq<TabView>, k: int)
    requires
        scan_lines(head).active_workspace == 1,
        scan_lines(head).tabs.len() == 0,
        0 <= k <= tabs.len(),
        tabs.len() <= usize::MAX,
    ensures
        scan_lines(head + tabs.map_values(|t: TabView| tab_record(t)).take(k)) == (LoadScan {
            tabs: renumbered(tabs).take(k),
            ..scan_lines(head)
        }),
    decreases k,
{
    let recs = tabs.map_values(|t: TabView| tab_record(t));
    if k == 0 {
        assert(head + recs.take(0) =~= head);
        assert(renumbered(tabs).take(0) =~= scan_lines(head).tabs);
    } else {
        lemma_scan_tab_records(head, tabs, k - 1);
        let ls = head + recs.take(k);
        assert(ls.drop_last() =~= head + recs.take(k - 1));
        assert(ls.last() == tab_record(tabs[k - 1]));
        let t = tabs[k - 1];
        let fields = seq![
            TAB_KEY@,
            WORKSPACE_ID@,
            Seq::empty(),
            NOT_PINNED@,
            escape(t.title),
            escape(t.url),
            Seq::empty(),
        ];
        lemma_fixed_fields();
        lemma_escape_field_safe(t.title);
        lemma_escape_field_safe(t.url);
        lemma_record(fields);
        lemma_unescape_escape(t.title);
        lemma_unescape_escape(t.url);
        let prev = scan_lines(head + recs.take(k - 1));
        assert(prev.tabs == renumbered(tabs).take(k - 1));
        assert(scan_line(prev, tab_record(t)).tabs =~= renumbered(tabs).take(k));
    }
}

/// Each record that saving writes becomes one line of the file.
proof fn lemma_saved_lines(tabs: Seq<TabView>, active_index: int)
    ensures
        lines(state_text(tabs, active_index)) == state_records(tabs, active_index),
{
    let head = head_records(tabs, active_index);
    let all = state_records(tabs, active_index);
    lemma_fixed_fields();
    lemma_escape_field_safe(WORKSPACE_NAME@);
    lemma_record(seq![ACTIVE_WORKSPACE_KEY@, WORKSPACE_ID@]);
    lemma_record(seq![WORKSPACE_KEY@, WORKSPACE_ID@, escape(WORKSPACE_NAME@)]);
    assert forall|i: int| 0 <= i < all.len() implies {
        &&& !(#[trigger] all[i]).contains('\n')
        &&& !all[i].contains('\r')
        &&& all[i].len() > 0
    } by {
        if i < head.len() {
            if i == 2 {
                lemma_decimal_field((active_index + 1) as nat);
                lemma_record(
                    seq![ACTIVE_TAB_KEY@, WORKSPACE_ID@, decimal((active_index + 1) as nat)],
                );
            }
        } else {
            let t = tabs[i - head.len()];
            lemma_escape_field_safe(t.title);
            lemma_escape_field_safe(t.url);
            lemma_record(
                seq![
                    TAB_KEY@,
                    WORKSPACE_ID@,
                    Seq::empty(),
                    NOT_PINNED@,
                    escape(t.title),
                    escape(t.url),
                    Seq::empty(),
                ],
            );
        }
    }
    assert forall|i: int| 0 <= i < all.len() implies strip_cr(#[trigger] all[i]) == all[i] by {
        assert(all[i][all[i].len() - 1] == all[i].last());
    }
    assert(all.last() == all[all.len() - 1]);
    lemma_lines_join(all);
}

/// Reading the record of the active workspace selects workspace 1.
proof fn lemma_scan_active_workspace_record(st: LoadScan)
    ensures
        scan_line(st, join_with(seq![ACTIVE_WORKSPACE_KEY@, WORKSPACE_ID@], '\t')) == (LoadScan {
            active_workspace: 1,
            ..st
        }),
{
    lemma_fixed_fields();
    lemma_record(seq![ACTIVE_WORKSPACE_KEY@, WORKSPACE_ID@]);
}

/// Reading the record of the workspace changes nothing.
proof fn lemma_scan_workspace_record(st: LoadScan)
    ensures
        scan_line(st, join_with(seq![WORKSPACE_KEY@, WORKSPACE_ID@, escape(WORKSPACE_NAME@)], '\t'))
            == st,
{
    lemma_fixed_fields();
    lemma_escape_field_safe(WORKSPACE_NAME@);
    lemma_record(seq![WORKSPACE_KEY@, WORKSPACE_ID@, escape(WORKSPACE_NAME@)]);
}

/// Reading the record of the active tab in workspace 1 records its id.
proof fn lemma_scan_active_tab_record(st: LoadScan, id: usize)
    requires
        st.active_workspace == 1,
    ensures
        scan_line(st, join_with(seq![ACTIVE_TAB_KEY@, WORKSPACE_ID@, decimal(id as nat)], '\t'))
            == (LoadScan { active_tab_id: Some(id), ..st }),
{
    lemma_fixed_fields();
    lemma_decimal_field(id as nat);
    lemma_record(seq![ACTIVE_TAB_KEY@, WORKSPACE_ID@, decimal(id as nat)]);
    lemma_parse_decimal(id);
}

/// Reading the head records gives workspace 1, the number of the active tab
/// where the index names one, and no tabs.
proof fn lemma_scan_head(tabs: Seq<TabView>, active_index: int)
    requires
        tabs.len() <= usize::MAX,
    ensures
        scan_lines(head_records(tabs, active_index)) == (LoadScan {
            active_workspace: 1,
            active_tab_id: if 0 <= active_index < tabs.len() {
                Some((active_index + 1) as usize)
            } else {
                None
            },
            tabs: Seq::empty(),
        }),
{
    let head = head_records(tabs, active_index);
    let one = seq![head[0]];
    let two = seq![head[0], head[1]];
    assert(one.drop_last() =~= Seq::<Seq<char>>::empty());
    assert(scan_lines(one.drop_last()) == scan_start());
    lemma_scan_active_workspace_record(scan_start());
    assert(two.drop_last() =~= one);
    lemma_scan_workspace_record(scan_lines(one));
    assert(head.take(2) =~= two);
    if 0 <= active_index < tabs.len() {
        assert(head.drop_last() =~= two);
        lemma_scan_active_tab_record(scan_lines(two), (active_index + 1) as usize);
    } else {
        assert(head =~= two);
    }
}

/// Law: loading what saving wrote reads back the active workspace (1), the
/// number of the active tab (its place counted from 1, where the active index
/// names a tab), and the tabs in order with their titles and URLs, numbered
/// 1, 2, ...
pub proof fn lemma_load_saved(tabs: Seq<TabView>, active_index: int)
    requires
        tabs.len() <= usize::MAX,
    ensures
        scan_text(state_text(tabs, active_index)) == (LoadScan {
            active_workspace: 1,
            active_tab_id: if 0 <= active_index < tabs.len() {
                Some((active_index + 1) as usize)
            } else {
                None
            },
            tabs: renumbered(tabs),
        }),
{
    let recs = tabs.map_values(|t: TabView| tab_record(t));
    let head = head_records(tabs, active_index);
    lemma_saved_lines(tabs, active_index);
    lemma_scan_head(tabs, active_index);
    lemma_scan_tab_records(head, tabs, tabs.len() as int);
    assert(recs.take(tabs.len() as int) =~= recs);
    assert(renumbered(tabs).take(tabs.len() as int) =~= renumbered(tabs));
}
/// Law: reading one more line that holds a record of the active tab,
/// `active_tab <w> <t>`, records `<t>` as the active tab (none where it is no
/// number) when `<w>` names the selected workspace (a `<w>` that is no number
/// counts as workspace 1), and changes nothing when it names another one.
pub proof fn lemma_read_active_tab_record(ls: Seq<Seq<char>>, line: Seq<char>, w: Seq<char>, t: Seq<char>)
    requires
        split_on(line, '\t') == seq![ACTIVE_TAB_KEY@, w, t],
    ensures
        parse_or_one(w) == scan_lines(ls).active_workspace ==> scan_lines(ls.push(line)) == (LoadScan {
            active_tab_id: parse_usize(t),
            ..scan_lines(ls)
        }),
        parse_or_one(w) != scan_lines(ls).active_workspace ==> scan_lines(ls.push(line))
            == scan_lines(ls),
{
    lemma_fixed_fields();
    assert(ls.push(line).drop_last() =~= ls);
}

/// Law: reading one more line that selects the active workspace,
/// `active_workspace <w>`, selects `<w>` (1 where it is no number) and keeps
/// the tabs and the active tab read so far.
pub proof fn lemma_read_active_workspace_record(ls: Seq<Seq<char>>, line: Seq<char>, w: Seq<char>)
    requires
        split_on(line, '\t') == seq![ACTIVE_WORKSPACE_KEY@, w],
    ensures
        scan_lines(ls.push(line)) == (LoadScan { active_workspace: parse_or_one(w), ..scan_lines(ls) }),
{
    lemma_fixed_fields();
    assert(ls.push(line).drop_last() =~= ls);
}

/// Law: reading one more line that holds a tab record of at least six fields,
/// `tab <w> <folder> <pinned> <title> <url> ...`, appends a tab numbered after
/// the tabs read so far, with the decoded title and URL, when `<w>` names the
/// selected workspace (1 where it is no number), and changes nothing when it
/// names another one.
pub proof fn lemma_read_tab_record(ls: Seq<Seq<char>>, line: Seq<char>)
    requires
        split_on(line, '\t').len() >= 6,
        split_on(line, '\t')[0] == TAB_KEY@,
    ensures
        ({
            let parts = split_on(line, '\t');
            let before = scan_lines(ls);
            let after = scan_lines(ls.push(line));
            &&& parse_or_one(parts[1]) == before.active_workspace ==> {
                &&& after.active_workspace == before.active_workspace
                &&& after.active_tab_id == before.active_tab_id
                &&& after.tabs.len() == before.tabs.len() + 1
                &&& after.tabs.drop_last() == before.tabs
                &&& after.tabs.last().id == (before.tabs.len() + 1) as usize
                &&& after.tabs.last().title == unescape(parts[4])
                &&& after.tabs.last().url == unescape(parts[5])
            }
            &&& parse_or_one(parts[1]) != before.active_workspace ==> after == before
        }),
{
    lemma_fixed_fields();
    assert(ls.push(line).drop_last() =~= ls);
    let before = scan_lines(ls);
    let after = scan_lines(ls.push(line));
    if parse_or_one(split_on(line, '\t')[1]) == before.active_workspace {
        assert(after.tabs.drop_last() =~= before.tabs);
    }
}

/// Every tab read comes from a non-empty line.
proof fn lemma_scan_lines_count(ls: Seq<Seq<char>>)
    ensures
        scan_lines(ls).tabs.len() <= count_nonempty(ls),
    decreases ls.len(),
{
    if ls.len() > 0 {
        lemma_scan_lines_count(ls.drop_last());
        if ls.last().len() == 0 {
            assert(split_on(ls.last(), '\t') == seq![Seq::<char>::empty()]);
        }
    }
}

/// A text that a `usize` can count holds fewer tabs than the largest `usize`.
pub proof fn lemma_scan_bound(raw: Seq<char>)
    requires
        raw.len() <= usize::MAX,
    ensures
        scan_text(raw).tabs.len() < usize::MAX,
{
    lemma_scan_lines_count(lines(raw));
    lemma_lines_count_nonempty(raw);
}
} // verus!
