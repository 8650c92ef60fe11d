//! Escaping of free text (tab titles, URLs) for the tab-separated state file.
use vstd::prelude::*;
use vstd::string::*;
use crate::text::chars_of;

verus! {

/// What one character of free text becomes in the state file: a backslash,
/// tab, line feed or carriage return becomes a backslash and a letter, any
/// other character stays.
pub open spec fn escape_char(c: char) -> Seq<char> {
    if c == '\\' {
        seq!['\\', '\\']
    } else if c == '\t' {
        seq!['\\', 't']
    } else if c == '\n' {
        seq!['\\', 'n']
    } else if c == '\r' {
        seq!['\\', 'r']
    } else {
        seq![c]
    }
}

/// The escaped form of `s`: each character escaped in turn.
pub open spec fn escape(s: Seq<char>) -> Seq<char>
    decreases s.len(),
{
    if s.len() == 0 {
        Seq::empty()
    } else {
        escape_char(s[0]) + escape(s.drop_first())
    }
}

/// What a backslash followed by `c` stands for.
pub open spec fn unescape_pair(c: char) -> Seq<char> {
    if c == 't' {
        seq!['\t']
    } else if c == 'n' {
        seq!['\n']
    } else if c == 'r' {
        seq!['\r']
    } else if c == '\\' {
        seq!['\\']
    } else {
        seq!['\\', c]
    }
}

/// The text that the escaped form `s` stands for: `\t`, `\n`, `\r` and `\\`
/// are decoded, a backslash before any other character is kept with that
/// character, and a backslash at the very end is kept.
pub open spec fn unescape(s: Seq<char>) -> Seq<char>
    decreases s.len(),
{
    if s.len() == 0 {
        Seq::empty()
    } else if s[0] == '\\' {
        if s.len() == 1 {
            seq!['\\']
        } else {
            unescape_pair(s[1]) + unescape(s.skip(2))
        }
    } else {
        seq![s[0]] + unescape(s.skip(1))
    }
}

/// `s` holds no tab, line feed or carriage return.
pub open spec fn is_field_safe(s: Seq<char>) -> bool {
    !s.contains('\t') && !s.contains('\n') && !s.contains('\r')
}

/// Escapes free text for the state file (`\` as `\\`, tab as `\t`, line feed
/// as `\n`, carriage return as `\r`).
pub fn escape_state(value: &str) -> (escaped: String)
    ensures
        escaped@ == escape(value@),
{
    let v = chars_of(value);
    let mut out = String::new();
    let mut i: usize = 0;
    assert(v@.skip(0) =~= v@);
    while i < v.len()
        invariant
            i <= v@.len(),
            escape(v@) == out@ + escape(v@.skip(i as int)),
        decreases v@.len() - i,
    {
        let c = v[i];
        let ghost rest = v@.skip(i as int);
        assert(rest.drop_first() =~= v@.skip(i + 1));
        assert(rest[0] == c);
        if c == '\\' {
            out.push('\\');
            out.push('\\');
        } else if c == '\t' {
            out.push('\\');
            out.push('t');
        } else if c == '\n' {
            out.push('\\');
            out.push('n');
        } else if c == '\r' {
            out.push('\\');
            out.push('r');
        } else {
            out.push(c);
        }
        i = i + 1;
        assert(escape(v@) =~= out@ + escape(v@.skip(i as int)));
    }
    assert(v@.skip(v@.len() as int) =~= Seq::<char>::empty());
    assert(out@ + Seq::<char>::empty() =~= out@);
    out
}

/// Decodes text escaped by `escape_state`.
pub fn unescape_state(value: &str) -> (text: String)
    ensures
        text@ == unescape(value@),
{
    let v = chars_of(value);
    unescape_chars(&v)
}

/// Decodes the escaped characters `v`.
pub fn unescape_chars(v: &Vec<char>) -> (text: String)
    ensures
        text@ == unescape(v@),
{
    let len = v.len();
    let mut out = String::new();
    let mut i: usize = 0;
    assert(v@.skip(0) =~= v@);
    while i < len
        invariant
            len == v@.len(),
            i <= len,
            unescape(v@) == out@ + unescape(v@.skip(i as int)),
        decreases len - i,
    {
        let ghost rest = v@.skip(i as int);
        let ch = v[i];
        assert(rest[0] == ch);
        if ch == '\\' {
            if i + 1 < len {
                let next = v[i + 1];
                assert(rest[1] == next);
                assert(rest.skip(2) =~= v@.skip(i + 2));
                if next == 't' {
                    out.push('\t');
                } else if next == 'n' {
                    out.push('\n');
                } else if next == 'r' {
                    out.push('\r');
                } else if next == '\\' {
                    out.push('\\');
                } else {
                    out.push('\\');
                    out.push(next);
                }
                i = i + 2;
            } else {
                out.push('\\');
                i = i + 1;
                assert(v@.skip(i as int) =~= Seq::<char>::empty());
            }
        } else {
            out.push(ch);
            assert(rest.skip(1) =~= v@.skip(i + 1));
            i = i + 1;
        }
        assert(unescape(v@) =~= out@ + unescape(v@.skip(i as int)));
    }
    assert(v@.skip(len as int) =~= Seq::<char>::empty());
    assert(out@ + Seq::<char>::empty() =~= out@);
    out
}

/// Law: decoding the escaped form of any text gives the text back.
pub proof fn lemma_unescape_escape(s: Seq<char>)
    ensures
        unescape(escape(s)) == s,
    decreases s.len(),
{
    if s.len() == 0 {
        assert(escape(s) =~= Seq::<char>::empty());
    } else {
        let c = s[0];
        let rest = s.drop_first();
        lemma_unescape_escape(rest);
        let e = escape(s);
        let er = escape(rest);
        assert(e == escape_char(c) + er);
        if c == '\\' || c == '\t' || c == '\n' || c == '\r' {
            assert(e[0] == '\\');
            assert(e.len() >= 2);
            assert(e.skip(2) =~= er);
            assert(unescape(e) == unescape_pair(e[1]) + unescape(er));
        } else {
            assert(e[0] == c);
            assert(e.skip(1) =~= er);
            assert(unescape(e) == seq![c] + unescape(er));
        }
        assert(unescape(e) =~= s);
    }
}

/// Law: the escaped form of any text holds no tab, line feed or carriage
/// return, so it can stand as one field of a tab-separated line.
pub proof fn lemma_escape_field_safe(s: Seq<char>)
    ensures
        is_field_safe(escape(s)),
    decreases s.len(),
{
    if s.len() > 0 {
        lemma_escape_field_safe(s.drop_first());
        let e = escape(s);
        let head = escape_char(s[0]);
        let er = escape(s.drop_first());
        assert(e == head + er);
        assert forall|x: char| x == '\t' || x == '\n' || x == '\r' implies !e.contains(x) by {
            if e.contains(x) {
                let k = choose|k: int| 0 <= k < e.len() && e[k] == x;
                if k < head.len() {
                    assert(e[k] == head[k]);
                } else {
                    assert(e[k] == er[k - head.len()]);
                }
            }
        }
    }
}

/// Law: text without backslashes and control characters escapes to itself.
pub proof fn lemma_escape_plain(s: Seq<char>)
    requires
        !s.contains('\\'),
        is_field_safe(s),
    ensures
        escape(s) == s,
    decreases s.len(),
{
    if s.len() > 0 {
        let rest = s.drop_first();
        assert(!rest.contains('\\') && is_field_safe(rest)) by {
            assert forall|x: char| rest.contains(x) implies s.contains(x) by {
                let k = choose|k: int| 0 <= k < rest.len() && rest[k] == x;
                assert(s[k + 1] == x);
            }
        }
        lemma_escape_plain(rest);
        assert(s[0] != '\\' && s[0] != '\t' && s[0] != '\n' && s[0] != '\r') by {
            assert(s.contains(s[0]));
        }
        assert(escape(s) =~= s);
    }
}

/// Law: decoding text without backslashes gives it unchanged.
pub proof fn lemma_unescape_plain(s: Seq<char>)
    requires
        !s.contains('\\'),
    ensures
        unescape(s) == s,
    decreases s.len(),
{
    if s.len() > 0 {
        let rest = s.skip(1);
        assert(!rest.contains('\\')) by {
            if rest.contains('\\') {
                let k = choose|k: int| 0 <= k < rest.len() && rest[k] == '\\';
                assert(s[k + 1] == '\\');
            }
        }
        lemma_unescape_plain(rest);
        assert(s[0] != '\\') by {
            assert(s.contains(s[0]));
        }
        assert(unescape(s) =~= s);
    }
}

} // verus!
