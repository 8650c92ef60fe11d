//! Character-level building blocks shared by the URL rules and the state file
//! format: whitespace trimming, splitting, line breaking, decimal numbers.
use vstd::prelude::*;
use vstd::string::*;

verus! {

/// `String::push` appends one character at the end of the string.
pub assume_specification[ String::push ](string: &mut String, ch: char)
    ensures
        final(string)@ == old(string)@.push(ch),
;

// ---------------------------------------------------------------------------
// Specifications
// ---------------------------------------------------------------------------

/// The characters with the Unicode `White_Space` property, which is what
/// `char::is_whitespace` (and so `str::trim`) recognises.
pub open spec fn is_space(c: char) -> bool {
    let u = c as u32;
    ||| 0x09 <= u <= 0x0d
    ||| u == 0x20
    ||| u == 0x85
    ||| u == 0xa0
    ||| u == 0x1680
    ||| 0x2000 <= u <= 0x200a
    ||| u == 0x2028
    ||| u == 0x2029
    ||| u == 0x202f
    ||| u == 0x205f
    ||| u == 0x3000
}

/// `s` without its leading whitespace.
pub open spec fn trim_start(s: Seq<char>) -> Seq<char>
    decreases s.len(),
{
    if s.len() > 0 && is_space(s[0]) {
        trim_start(s.drop_first())
    } else {
        s
    }
}

/// `s` without its trailing whitespace.
pub open spec fn trim_end(s: Seq<char>) -> Seq<char>
    decreases s.len(),
{
    if s.len() > 0 && is_space(s.last()) {
        trim_end(s.drop_last())
    } else {
        s
    }
}

/// `s` without leading and trailing whitespace, as `str::trim` gives it.
pub open spec fn trim(s: Seq<char>) -> Seq<char> {
    trim_end(trim_start(s))
}

/// `s` holds the separator `://` somewhere.
pub open spec fn has_scheme_separator(s: Seq<char>) -> bool {
    exists|i: int| 0 <= i && i + 3 <= s.len() && #[trigger] s[i] == ':' && s[i + 1] == '/' && s[i + 2]
        == '/'
}

/// The pieces of `s` between occurrences of `sep`, as `str::split` yields them:
/// always at least one piece, empty pieces kept.
pub open spec fn split_on(s: Seq<char>, sep: char) -> Seq<Seq<char>>
    decreases s.len(),
{
    if s.len() == 0 {
        seq![Seq::empty()]
    } else {
        let pieces = split_on(s.drop_last(), sep);
        if s.last() == sep {
            pieces.push(Seq::empty())
        } else {
            pieces.update(pieces.len() - 1, pieces.last().push(s.last()))
        }
    }
}

/// The pieces joined back together with `sep` between them.
pub open spec fn join_with(pieces: Seq<Seq<char>>, sep: char) -> Seq<char>
    decreases pieces.len(),
{
    if pieces.len() == 0 {
        Seq::empty()
    } else if pieces.len() == 1 {
        pieces[0]
    } else {
        join_with(pieces.drop_last(), sep).push(sep) + pieces.last()
    }
}

/// `s` without one trailing carriage return.
pub open spec fn strip_cr(s: Seq<char>) -> Seq<char> {
    if s.len() > 0 && s.last() == '\r' {
        s.drop_last()
    } else {
        s
    }
}

/// The lines of `s`, as `str::lines` yields them: split at `\n`, a `\r` right
/// before a `\n` belongs to the line ending, and a final empty line (after a
/// trailing line ending, or of an empty text) is not a line.
pub open spec fn lines(s: Seq<char>) -> Seq<Seq<char>> {
    let pieces = split_on(s, '\n');
    let count = if pieces.last().len() == 0 {
        pieces.len() - 1
    } else {
        pieces.len() as int
    };
    Seq::new(
        count as nat,
        |i: int|
            if i < pieces.len() - 1 {
                strip_cr(pieces[i])
            } else {
                pieces[i]
            },
    )
}

pub open spec fn is_digit(c: char) -> bool {
    '0' <= c <= '9'
}

pub open spec fn digit_value(c: char) -> nat {
    ((c as int) - ('0' as int)) as nat
}

/// The number that the decimal digits `d` spell.
pub open spec fn digits_value(d: Seq<char>) -> nat
    decreases d.len(),
{
    if d.len() == 0 {
        0
    } else {
        digits_value(d.drop_last()) * 10 + digit_value(d.last())
    }
}

pub open spec fn all_digits(d: Seq<char>) -> bool {
    forall|i: int| 0 <= i < d.len() ==> #[trigger] is_digit(d[i])
}

/// `s` without one leading `+`.
pub open spec fn unsigned_digits(s: Seq<char>) -> Seq<char> {
    if s.len() > 0 && s[0] == '+' {
        s.drop_first()
    } else {
        s
    }
}

/// What `str::parse::<usize>` gives for `s`: an optional `+`, then one or more
/// decimal digits whose value fits in a `usize`.
pub open spec fn parse_usize(s: Seq<char>) -> Option<usize> {
    let d = unsigned_digits(s);
    if d.len() > 0 && all_digits(d) && digits_value(d) <= usize::MAX {
        Some(digits_value(d) as usize)
    } else {
        None
    }
}

/// The parsed number, or 1 where `s` is no number (`parse().unwrap_or(1)`).
pub open spec fn parse_or_one(s: Seq<char>) -> usize {
    match parse_usize(s) {
        Some(n) => n,
        None => 1,
    }
}

pub open spec fn digit_char(d: nat) -> char {
    (d + ('0' as int)) as char
}

/// The decimal notation of `n`, as `{}` formats an integer.
pub open spec fn decimal(n: nat) -> Seq<char>
    decreases n,
{
    if n < 10 {
        seq![digit_char(n)]
    } else {
        decimal(n / 10).push(digit_char(n % 10))
    }
}

// ---------------------------------------------------------------------------
// Lemmas
// ---------------------------------------------------------------------------

pub proof fn lemma_split_nonempty(s: Seq<char>, sep: char)
    ensures
        split_on(s, sep).len() >= 1,
    decreases s.len(),
{
    if s.len() > 0 {
        lemma_split_nonempty(s.drop_last(), sep);
    }
}

/// Appending text without a separator extends the last piece.
pub proof fn lemma_split_append_plain(p: Seq<char>, q: Seq<char>, sep: char)
    requires
        !q.contains(sep),
    ensures
        split_on(p + q, sep) == ({
            let sp = split_on(p, sep);
            sp.update(sp.len() - 1, sp.last() + q)
        }),
    decreases q.len(),
{
    lemma_split_nonempty(p, sep);
    if q.len() == 0 {
        assert(p + q =~= p);
        let sp = split_on(p, sep);
        assert(sp.last() + q =~= sp.last());
        assert(sp.update(sp.len() - 1, sp.last() + q) =~= sp);
    } else {
        let q0 = q.drop_last();
        assert(!q0.contains(sep)) by {
            if q0.contains(sep) {
                let k = choose|k: int| 0 <= k < q0.len() && q0[k] == sep;
                assert(q[k] == sep);
            }
        }
        lemma_split_append_plain(p, q0, sep);
        assert((p + q).drop_last() =~= p + q0);
        assert((p + q).last() == q.last());
        assert(q.last() != sep) by {
            assert(q[q.len() - 1] == q.last());
        }
        let sp = split_on(p, sep);
        assert(sp.last() + q =~= (sp.last() + q0).push(q.last()));
        assert(split_on(p + q, sep) =~= sp.update(sp.len() - 1, sp.last() + q));
    }
}

/// Splitting what `join_with` made gives the pieces back.
pub proof fn lemma_split_join(pieces: Seq<Seq<char>>, sep: char)
    requires
        pieces.len() >= 1,
        forall|i: int| 0 <= i < pieces.len() ==> !(#[trigger] pieces[i]).contains(sep),
    ensures
        split_on(join_with(pieces, sep), sep) == pieces,
    decreases pieces.len(),
{
    if pieces.len() == 1 {
        let p = pieces[0];
        lemma_split_append_plain(Seq::empty(), p, sep);
        assert(Seq::<char>::empty() + p =~= p);
        assert(split_on(Seq::<char>::empty(), sep) == seq![Seq::<char>::empty()]);
        assert(Seq::<char>::empty() + p =~= p);
        assert(split_on(p, sep) =~= pieces);
    } else {
        let init = pieces.drop_last();
        assert forall|i: int| 0 <= i < init.len() implies !(#[trigger] init[i]).contains(sep) by {
            assert(init[i] == pieces[i]);
        }
        lemma_split_join(init, sep);
        let j = join_with(init, sep);
        let jp = j.push(sep);
        assert(jp.drop_last() =~= j);
        assert(split_on(jp, sep) == init.push(Seq::empty()));
        assert(!pieces.last().contains(sep)) by {
            assert(pieces[pieces.len() - 1] == pieces.last());
        }
        lemma_split_append_plain(jp, pieces.last(), sep);
        let sp = init.push(Seq::<char>::empty());
        assert(Seq::<char>::empty() + pieces.last() =~= pieces.last());
        assert(sp.update(sp.len() - 1, sp.last() + pieces.last()) =~= pieces);
    }
}

/// `lines` gives back the lines that were joined with `\n`, when none of them
/// holds a line break, none ends in `\r` and the last is not empty.
pub proof fn lemma_lines_join(ls: Seq<Seq<char>>)
    requires
        ls.len() >= 1,
        forall|i: int| 0 <= i < ls.len() ==> !(#[trigger] ls[i]).contains('\n'),
        forall|i: int| 0 <= i < ls.len() ==> strip_cr(#[trigger] ls[i]) == ls[i],
        ls.last().len() > 0,
    ensures
        lines(join_with(ls, '\n')) == ls,
{
    lemma_split_join(ls, '\n');
    assert(lines(join_with(ls, '\n')) =~= ls);
}

/// The decimal notation of a number consists of digits that spell it.
pub proof fn lemma_decimal(n: nat)
    ensures
        decimal(n).len() > 0,
        all_digits(decimal(n)),
        digits_value(decimal(n)) == n,
    decreases n,
{
    lemma_digit_char(n % 10);
    if n < 10 {
        let d = decimal(n);
        assert(n % 10 == n);
        assert(d.drop_last() =~= Seq::<char>::empty());
        assert(digits_value(d) == digits_value(d.drop_last()) * 10 + digit_value(d.last()));
    } else {
        lemma_decimal(n / 10);
        let d = decimal(n);
        assert(d.drop_last() =~= decimal(n / 10));
        assert(n == (n / 10) * 10 + n % 10);
        assert(digits_value(d) == digits_value(d.drop_last()) * 10 + digit_value(d.last()));
        assert forall|i: int| 0 <= i < d.len() implies #[trigger] is_digit(d[i]) by {
            if i < d.len() - 1 {
                assert(d[i] == decimal(n / 10)[i]);
            }
        }
    }
}

pub proof fn lemma_digit_char(k: nat)
    requires
        k < 10,
    ensures
        is_digit(digit_char(k)),
        digit_value(digit_char(k)) == k,
{
}

/// Formatting a number and parsing it back gives the number.
pub proof fn lemma_parse_decimal(n: usize)
    ensures
        parse_usize(decimal(n as nat)) == Some(n),
{
    lemma_decimal(n as nat);
    let d = decimal(n as nat);
    assert(is_digit(d[0]));
}

/// The value of a prefix of digits is at most the value of all of them.
pub proof fn lemma_digits_prefix(d: Seq<char>, k: int)
    requires
        0 <= k <= d.len(),
        all_digits(d),
    ensures
        digits_value(d.take(k)) <= digits_value(d),
    decreases d.len(),
{
    if k < d.len() {
        let init = d.drop_last();
        assert(all_digits(init)) by {
            assert forall|i: int| 0 <= i < init.len() implies #[trigger] is_digit(init[i]) by {
                assert(init[i] == d[i]);
            }
        }
        lemma_digits_prefix(init, k);
        assert(init.take(k) =~= d.take(k));
    } else {
        assert(d.take(k) =~= d);
    }
}

/// How many of the pieces are not empty.
pub open spec fn count_nonempty(ps: Seq<Seq<char>>) -> nat
    decreases ps.len(),
{
    if ps.len() == 0 {
        0
    } else {
        count_nonempty(ps.drop_last()) + if ps.last().len() > 0 {
            1nat
        } else {
            0nat
        }
    }
}

/// Non-empty pieces of a split are separated, so there are at most half as
/// many of them as characters (rounded up).
pub proof fn lemma_split_count_nonempty(s: Seq<char>, sep: char)
    ensures
        2 * count_nonempty(split_on(s, sep)) <= s.len() + 1,
        split_on(s, sep).last().len() == 0 ==> 2 * count_nonempty(split_on(s, sep)) <= s.len(),
    decreases s.len(),
{
    if s.len() == 0 {
        let ps = split_on(s, sep);
        assert(ps == seq![Seq::<char>::empty()]);
        assert(ps.last().len() == 0);
        assert(ps.drop_last() =~= Seq::<Seq<char>>::empty());
        assert(count_nonempty(Seq::<Seq<char>>::empty()) == 0);
        assert(count_nonempty(ps) == 0);
    } else {
        let init = s.drop_last();
        lemma_split_count_nonempty(init, sep);
        lemma_split_nonempty(init, sep);
        let ps = split_on(init, sep);
        assert(count_nonempty(ps) == count_nonempty(ps.drop_last()) + if ps.last().len() > 0 {
            1nat
        } else {
            0nat
        });
        if s.last() == sep {
            let qs = ps.push(Seq::empty());
            assert(split_on(s, sep) == qs);
            assert(qs.drop_last() =~= ps);
            assert(count_nonempty(qs) == count_nonempty(ps));
        } else {
            let qs = ps.update(ps.len() - 1, ps.last().push(s.last()));
            assert(split_on(s, sep) == qs);
            assert(qs.drop_last() =~= ps.drop_last());
            assert(qs.last().len() > 0);
            assert(count_nonempty(qs) == count_nonempty(ps.drop_last()) + 1);
        }
    }
}

/// A sequence whose pieces are no longer than those of another, and no more
/// numerous, has no more non-empty pieces.
pub proof fn lemma_count_nonempty_shrink(a: Seq<Seq<char>>, b: Seq<Seq<char>>)
    requires
        a.len() <= b.len(),
        forall|i: int| 0 <= i < a.len() ==> (#[trigger] a[i]).len() <= b[i].len(),
    ensures
        count_nonempty(a) <= count_nonempty(b),
    decreases b.len(),
{
    if b.len() > 0 {
        if a.len() == b.len() {
            lemma_count_nonempty_shrink(a.drop_last(), b.drop_last());
            assert(a.last().len() <= b.last().len()) by {
                assert(a[a.len() - 1].len() <= b[b.len() - 1].len());
            }
        } else {
            lemma_count_nonempty_shrink(a, b.drop_last());
        }
    }
}

/// There are at most half as many non-empty lines as characters (rounded up).
pub proof fn lemma_lines_count_nonempty(s: Seq<char>)
    ensures
        2 * count_nonempty(lines(s)) <= s.len() + 1,
{
    let ps = split_on(s, '\n');
    lemma_split_nonempty(s, '\n');
    lemma_split_count_nonempty(s, '\n');
    let ls = lines(s);
    assert forall|i: int| 0 <= i < ls.len() implies (#[trigger] ls[i]).len() <= ps[i].len() by {}
    lemma_count_nonempty_shrink(ls, ps);
}

/// Counting the non-empty pieces of a prefix one piece longer.
pub proof fn lemma_count_nonempty_take(ps: Seq<Seq<char>>, i: int)
    requires
        0 <= i < ps.len(),
    ensures
        count_nonempty(ps.take(i + 1)) == count_nonempty(ps.take(i)) + if ps[i].len() > 0 {
            1nat
        } else {
            0nat
        },
        count_nonempty(ps.take(i)) <= count_nonempty(ps.take(i + 1)),
{
    assert(ps.take(i + 1).drop_last() =~= ps.take(i));
}

/// What holds of every piece and of the separator holds of the joined text.
pub proof fn lemma_join_excludes(pieces: Seq<Seq<char>>, sep: char, x: char)
    requires
        x != sep,
        forall|i: int| 0 <= i < pieces.len() ==> !(#[trigger] pieces[i]).contains(x),
    ensures
        !join_with(pieces, sep).contains(x),
    decreases pieces.len(),
{
    if pieces.len() == 1 {
        assert(!pieces[0].contains(x));
    } else if pieces.len() > 1 {
        let init = pieces.drop_last();
        assert forall|i: int| 0 <= i < init.len() implies !(#[trigger] init[i]).contains(x) by {
            assert(init[i] == pieces[i]);
        }
        lemma_join_excludes(init, sep, x);
        let a = join_with(init, sep).push(sep);
        let b = pieces.last();
        assert(!b.contains(x)) by {
            assert(pieces[pieces.len() - 1] == b);
        }
        let j = join_with(pieces, sep);
        assert(j == a + b);
        if j.contains(x) {
            let k = choose|k: int| 0 <= k < j.len() && j[k] == x;
            if k < a.len() - 1 {
                assert(a[k] == join_with(init, sep)[k]);
            } else if k == a.len() - 1 {
                assert(a[k] == sep);
            } else {
                assert(j[k] == b[k - a.len()]);
            }
        }
    }
}

/// The last character of a join of at least two pieces: that of the last
/// piece, or the separator where the last piece is empty.
pub proof fn lemma_join_last(pieces: Seq<Seq<char>>, sep: char)
    requires
        pieces.len() >= 2,
    ensures
        join_with(pieces, sep).len() > 0,
        join_with(pieces, sep).last() == if pieces.last().len() > 0 {
            pieces.last().last()
        } else {
            sep
        },
{
    let a = join_with(pieces.drop_last(), sep).push(sep);
    let b = pieces.last();
    let j = join_with(pieces, sep);
    assert(j == a + b);
    if b.len() == 0 {
        assert(j =~= a);
    } else {
        assert(j.last() == b.last());
    }
}

// ---------------------------------------------------------------------------
// Executable functions
// ---------------------------------------------------------------------------

/// The characters of `s`, one by one.
pub fn chars_of(s: &str) -> (v: Vec<char>)
    ensures
        v@ == s@,
{
    let mut v: Vec<char> = Vec::new();
    for c in it: s.chars()
        invariant
            it.seq() == s@,
            v@ == s@.take(it.index()),
    {
        v.push(c);
        assert(v@ == s@.take(it.index() + 1));
    }
    v
}

/// The string made of `v[from..to]`.
pub fn string_of_range(v: &Vec<char>, from: usize, to: usize) -> (s: String)
    requires
        from <= to <= v@.len(),
    ensures
        s@ == v@.subrange(from as int, to as int),
{
    let mut s = String::new();
    let mut i = from;
    while i < to
        invariant
            from <= i <= to <= v@.len(),
            s@ == v@.subrange(from as int, i as int),
        decreases to - i,
    {
        s.push(v[i]);
        i = i + 1;
        assert(s@ =~= v@.subrange(from as int, i as int));
    }
    s
}

/// The string made of all of `v`.
pub fn string_of(v: &Vec<char>) -> (s: String)
    ensures
        s@ == v@,
{
    let s = string_of_range(v, 0, v.len());
    assert(v@.subrange(0, v@.len() as int) =~= v@);
    s
}

/// Whether the characters `a` spell the text `b`.
pub fn chars_equal(a: &Vec<char>, b: &str) -> (eq: bool)
    ensures
        eq == (a@ == b@),
{
    let n = b.unicode_len();
    if a.len() != n {
        return false;
    }
    let mut i: usize = 0;
    while i < n
        invariant
            n == b@.len(),
            a@.len() == n,
            i <= n,
            forall|j: int| 0 <= j < i ==> a@[j] == b@[j],
        decreases n - i,
    {
        if a[i] != b.get_char(i) {
            return false;
        }
        i = i + 1;
    }
    assert(a@ =~= b@);
    true
}

/// Whether the strings `a` and `b` hold the same text.
pub fn str_equal(a: &str, b: &str) -> (eq: bool)
    ensures
        eq == (a@ == b@),
{
    let v = chars_of(a);
    chars_equal(&v, b)
}

/// `char::is_whitespace`.
pub fn char_is_space(c: char) -> (b: bool)
    ensures
        b == is_space(c),
{
    let u = c as u32;
    (0x09 <= u && u <= 0x0d) || u == 0x20 || u == 0x85 || u == 0xa0 || u == 0x1680 || (0x2000 <= u
        && u <= 0x200a) || u == 0x2028 || u == 0x2029 || u == 0x202f || u == 0x205f || u == 0x3000
}

/// `str::trim`: the text without leading and trailing whitespace.
pub fn trim_text(s: &str) -> (t: String)
    ensures
        t@ == trim(s@),
{
    let v = chars_of(s);
    let len = v.len();
    let mut start: usize = 0;
    assert(v@.subrange(0, len as int) =~= v@);
    while start < len && char_is_space(v[start])
        invariant
            start <= len == v@.len(),
            trim_start(v@) == trim_start(v@.subrange(start as int, len as int)),
        decreases len - start,
    {
        let ghost rest = v@.subrange(start as int, len as int);
        assert(rest.drop_first() =~= v@.subrange(start + 1, len as int));
        start = start + 1;
    }
    assert(trim_start(v@) == v@.subrange(start as int, len as int));
    let mut end: usize = len;
    while end > start && char_is_space(v[end - 1])
        invariant
            start <= end <= len == v@.len(),
            trim(v@) == trim_end(v@.subrange(start as int, end as int)),
        decreases end - start,
    {
        let ghost part = v@.subrange(start as int, end as int);
        assert(part.drop_last() =~= v@.subrange(start as int, end - 1));
        end = end - 1;
    }
    string_of_range(&v, start, end)
}

/// `str::contains("://")`.
pub fn contains_scheme_separator(s: &str) -> (b: bool)
    ensures
        b == has_scheme_separator(s@),
{
    let v = chars_of(s);
    let len = v.len();
    let mut i: usize = 0;
    while len >= 3 && i <= len - 3
        invariant
            len == v@.len(),
            v@ == s@,
            forall|j: int| 0 <= j < i && j + 3 <= len ==> !(#[trigger] v@[j] == ':' && v@[j + 1] == '/'
                && v@[j + 2] == '/'),
        decreases len - i,
    {
        if v[i] == ':' && v[i + 1] == '/' && v[i + 2] == '/' {
            return true;
        }
        i = i + 1;
    }
    false
}

/// `str::split(sep)` on a character sequence.
pub fn split_chars(v: &Vec<char>, sep: char) -> (pieces: Vec<Vec<char>>)
    ensures
        pieces.deep_view() == split_on(v@, sep),
{
    let mut done: Vec<Vec<char>> = Vec::new();
    let mut cur: Vec<char> = Vec::new();
    let mut i: usize = 0;
    while i < v.len()
        invariant
            i <= v@.len(),
            done.deep_view().push(cur@) == split_on(v@.take(i as int), sep),
        decreases v@.len() - i,
    {
        let ghost before = split_on(v@.take(i as int), sep);
        assert(v@.take(i + 1).drop_last() =~= v@.take(i as int));
        let c = v[i];
        let ghost done_before = done.deep_view();
        let ghost cur_before = cur@;
        assert(before =~= done_before.push(cur_before));
        if c == sep {
            let piece = cur;
            done.push(piece);
            cur = Vec::new();
            assert(done.deep_view() =~~= done_before.push(cur_before));
            assert(done.deep_view().push(cur@) =~= before.push(Seq::empty()));
        } else {
            cur.push(c);
            assert(done.deep_view() =~~= done_before);
            assert(done.deep_view().push(cur@) =~= before.update(
                before.len() - 1,
                before.last().push(c),
            ));
        }
        i = i + 1;
    }
    assert(v@.take(v@.len() as int) =~= v@);
    let ghost done_before = done.deep_view();
    let ghost cur_before = cur@;
    done.push(cur);
    assert(done.deep_view() =~~= done_before.push(cur_before));
    done
}

/// `str::lines` on a character sequence.
pub fn lines_of(v: &Vec<char>) -> (ls: Vec<Vec<char>>)
    ensures
        ls.deep_view() == lines(v@),
{
    let pieces = split_chars(v, '\n');
    proof {
        lemma_split_nonempty(v@, '\n');
    }
    let n = pieces.len();
    let count = if pieces[n - 1].len() == 0 {
        n - 1
    } else {
        n
    };
    let ghost spec_lines = lines(v@);
    let mut ls: Vec<Vec<char>> = Vec::new();
    let mut i: usize = 0;
    while i < count
        invariant
            n == pieces@.len(),
            pieces.deep_view() == split_on(v@, '\n'),
            count <= n,
            count == spec_lines.len(),
            spec_lines == lines(v@),
            i <= count,
            ls.deep_view() == spec_lines.take(i as int),
        decreases count - i,
    {
        let mut line = pieces[i].clone();
        assert(line@ == pieces.deep_view()[i as int]);
        if i < n - 1 && line.len() > 0 && line[line.len() - 1] == '\r' {
            line.pop();
        }
        assert(line@ == spec_lines[i as int]) by {
            assert(line@ =~= (if i < n - 1 {
                strip_cr(pieces.deep_view()[i as int])
            } else {
                pieces.deep_view()[i as int]
            }));
        }
        let ghost ls_before = ls.deep_view();
        ls.push(line);
        assert(ls.deep_view() =~~= ls_before.push(spec_lines[i as int]));
        i = i + 1;
        assert(ls.deep_view() =~= spec_lines.take(i as int));
    }
    assert(spec_lines.take(count as int) =~= spec_lines);
    ls
}

/// `str::parse::<usize>()` on a character sequence, `None` for any error.
pub fn parse_usize_chars(s: &Vec<char>) -> (n: Option<usize>)
    ensures
        n == parse_usize(s@),
{
    let len = s.len();
    let start: usize = if len > 0 && s[0] == '+' {
        1
    } else {
        0
    };
    let ghost d = unsigned_digits(s@);
    assert(d =~= s@.subrange(start as int, len as int));
    if start == len {
        return None;
    }
    let mut value: usize = 0;
    let mut i = start;
    while i < len
        invariant
            start < len == s@.len(),
            d == unsigned_digits(s@),
            d == s@.subrange(start as int, len as int),
            start <= i <= len,
            all_digits(d.take(i - start)),
            value == digits_value(d.take(i - start)),
        decreases len - i,
    {
        let c = s[i];
        let ghost k = i - start;
        assert(d.take(k + 1).drop_last() =~= d.take(k));
        assert(d.take(k + 1).last() == c);
        if !('0' <= c && c <= '9') {
            assert(!all_digits(d)) by {
                assert(d[k] == c);
                assert(!is_digit(d[k]));
            }
            return None;
        }
        let digit = ((c as u32) - ('0' as u32)) as usize;
        assert(digits_value(d.take(k + 1)) == value * 10 + digit);
        if value > (usize::MAX - digit) / 10 {
            proof {
                assert(all_digits(d.take(k + 1))) by {
                    assert forall|j: int| 0 <= j < k + 1 implies #[trigger] is_digit(
                        d.take(k + 1)[j],
                    ) by {
                        if j < k {
                            assert(d.take(k + 1)[j] == d.take(k)[j]);
                        }
                    }
                }
                assert(value * 10 + digit > usize::MAX) by (nonlinear_arith)
                    requires
                        value > (usize::MAX - digit) / 10,
                        digit <= 9,
                ;
                if all_digits(d) {
                    lemma_digits_prefix(d, k + 1);
                }
            }
            return None;
        }
        assert(value * 10 + digit <= usize::MAX) by (nonlinear_arith)
            requires
                value <= (usize::MAX - digit) / 10,
                digit <= 9,
        ;
        value = value * 10 + digit;
        i = i + 1;
        assert forall|j: int| 0 <= j < k + 1 implies #[trigger] is_digit(d.take(k + 1)[j]) by {
            if j < k {
                assert(d.take(k + 1)[j] == d.take(k)[j]);
            }
        }
    }
    assert(d.take(len - start) =~= d);
    Some(value)
}

/// The character for the digit `d`.
fn digit_to_char(d: usize) -> (c: char)
    requires
        d < 10,
    ensures
        c == digit_char(d as nat),
{
    if d == 0 {
        '0'
    } else if d == 1 {
        '1'
    } else if d == 2 {
        '2'
    } else if d == 3 {
        '3'
    } else if d == 4 {
        '4'
    } else if d == 5 {
        '5'
    } else if d == 6 {
        '6'
    } else if d == 7 {
        '7'
    } else if d == 8 {
        '8'
    } else {
        '9'
    }
}

/// Appends the decimal notation of `n` (`format!("{}", n)`).
pub fn push_decimal(out: &mut String, n: usize)
    ensures
        final(out)@ == old(out)@ + decimal(n as nat),
    decreases n,
{
    if n >= 10 {
        push_decimal(out, n / 10);
    }
    out.push(digit_to_char(n % 10));
    proof {
        if n < 10 {
            assert(n % 10 == n);
        }
    }
    assert(out@ =~= old(out)@ + decimal(n as nat));
}

/// Joins the strings with `sep` between them (`[String]::join`).
pub fn join_strings(pieces: &Vec<String>, sep: char) -> (s: String)
    ensures
        s@ == join_with(pieces.deep_view(), sep),
{
    let mut s = String::new();
    let mut i: usize = 0;
    while i < pieces.len()
        invariant
            i <= pieces@.len(),
            s@ == join_with(pieces.deep_view().take(i as int), sep),
        decreases pieces@.len() - i,
    {
        let ghost dv = pieces.deep_view();
        assert(dv.take(i + 1).drop_last() =~= dv.take(i as int));
        if i > 0 {
            s.push(sep);
        } else {
            assert(dv.take(0) =~= Seq::<Seq<char>>::empty());
        }
        s.append(pieces[i].as_str());
        i = i + 1;
        assert(s@ =~= join_with(dv.take(i as int), sep));
    }
    assert(pieces.deep_view().take(pieces@.len() as int) =~= pieces.deep_view());
    s
}

} // verus!
