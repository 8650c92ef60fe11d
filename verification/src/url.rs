//! The rules by which typed text becomes the URL and the title of a tab.
use vstd::prelude::*;
use vstd::string::*;
use crate::text::{trim, trim_start, trim_end, is_space, has_scheme_separator, trim_text, contains_scheme_separator, str_equal};

verus! {

/// The page that a new or emptied tab shows.
pub const DEFAULT_URL: &'static str = "https://www.google.com";

/// The title of a tab that shows the default page.
pub const NEW_TAB_TITLE: &'static str = "New Tab";

/// The scheme put in front of text that names no scheme.
pub const HTTPS_PREFIX: &'static str = "https://";

/// The URL that typed text stands for: the default page for blank text, the
/// trimmed text where it holds `://`, else the trimmed text after `https://`.
pub open spec fn normalized(url: Seq<char>) -> Seq<char> {
    let t = trim(url);
    if t.len() == 0 {
        DEFAULT_URL@
    } else if has_scheme_separator(t) {
        t
    } else {
        HTTPS_PREFIX@ + t
    }
}

/// The title for a URL: "New Tab" for the default page, else the URL itself.
pub open spec fn label(url: Seq<char>) -> Seq<char> {
    let n = normalized(url);
    if n == DEFAULT_URL@ {
        NEW_TAB_TITLE@
    } else {
        n
    }
}

/// Turns what the user typed into a URL.
pub fn normalize_url(url: &str) -> (normal: String)
    ensures
        normal@ == normalized(url@),
{
    let trimmed = trim_text(url);
    if trimmed.as_str().is_empty() {
        return String::from_str(DEFAULT_URL);
    }
    if contains_scheme_separator(trimmed.as_str()) {
        trimmed
    } else {
        let mut normal = String::from_str(HTTPS_PREFIX);
        normal.append(trimmed.as_str());
        normal
    }
}

/// The title that a tab showing `url` gets.
pub fn label_for_url(url: &str) -> (title: String)
    ensures
        title@ == label(url@),
{
    let normal = normalize_url(url);
    if str_equal(normal.as_str(), DEFAULT_URL) {
        String::from_str(NEW_TAB_TITLE)
    } else {
        normal
    }
}

/// Trimming text that has no whitespace at either end changes nothing.
proof fn lemma_trim_fixed(s: Seq<char>)
    requires
        s.len() == 0 || (!is_space(s[0]) && !is_space(s.last())),
    ensures
        trim(s) == s,
{
}

/// What `trim` gives has no whitespace at either end.
proof fn lemma_trim_ends(s: Seq<char>)
    ensures
        trim(s).len() == 0 || (!is_space(trim(s)[0]) && !is_space(trim(s).last())),
{
    lemma_trim_start_ends(s);
    lemma_trim_end_ends(trim_start(s));
}

proof fn lemma_trim_start_ends(s: Seq<char>)
    ensures
        trim_start(s).len() == 0 || !is_space(trim_start(s)[0]),
    decreases s.len(),
{
    if s.len() > 0 && is_space(s[0]) {
        lemma_trim_start_ends(s.drop_first());
    }
}

/// `trim_end` keeps a prefix, and so the first character of a non-empty result.
proof fn lemma_trim_end_ends(s: Seq<char>)
    requires
        s.len() == 0 || !is_space(s[0]),
    ensures
        trim_end(s).len() == 0 || (!is_space(trim_end(s)[0]) && !is_space(trim_end(s).last())),
        trim_end(s).len() <= s.len(),
        trim_end(s) == s.take(trim_end(s).len() as int),
    decreases s.len(),
{
    if s.len() > 0 && is_space(s.last()) {
        lemma_trim_end_ends(s.drop_last());
        let t = trim_end(s.drop_last());
        assert(s.drop_last().take(t.len() as int) =~= s.take(t.len() as int));
        if t.len() > 0 {
            assert(t[0] == s[0]);
        }
    } else {
        assert(s.take(s.len() as int) =~= s);
    }
}

/// Law: normalizing a URL that was already normalized changes nothing.
pub proof fn lemma_normalize_idempotent(url: Seq<char>)
    ensures
        normalized(normalized(url)) == normalized(url),
{
    reveal_strlit("https://www.google.com");
    reveal_strlit("https://");
    let t = trim(url);
    lemma_trim_ends(url);
    let n = normalized(url);
    if t.len() == 0 {
        lemma_trim_fixed(n);
        assert(n[0] == 'h' && n[5] == ':' && n[6] == '/' && n[7] == '/');
        assert(has_scheme_separator(n));
    } else if has_scheme_separator(t) {
        lemma_trim_fixed(t);
    } else {
        assert(n[0] == 'h');
        assert(n.last() == t.last());
        lemma_trim_fixed(n);
        assert(n[5] == ':' && n[6] == '/' && n[7] == '/');
        assert(has_scheme_separator(n));
    }
}

/// Law: a normalized URL is never blank and always names a scheme (holds `://`).
pub proof fn lemma_normalized_has_scheme(url: Seq<char>)
    ensures
        normalized(url).len() > 0,
        has_scheme_separator(normalized(url)),
{
    reveal_strlit("https://www.google.com");
    reveal_strlit("https://");
    let t = trim(url);
    let n = normalized(url);
    if t.len() == 0 {
        assert(n[5] == ':' && n[6] == '/' && n[7] == '/');
    } else if !has_scheme_separator(t) {
        assert(n[5] == ':' && n[6] == '/' && n[7] == '/');
    }
}

/// Law: what normalizing gives, in terms of the trimmed text: the default page
/// for blank text; otherwise a URL that ends with the trimmed text, equal to
/// it where it names a scheme, and `https://` followed by it where it does
/// not. The result has no whitespace at either end.
pub proof fn lemma_normalized_shape(url: Seq<char>)
    ensures
        trim(url).len() == 0 ==> normalized(url) == DEFAULT_URL@,
        trim(url).len() > 0 ==> trim(url).is_suffix_of(normalized(url)),
        trim(url).len() > 0 && has_scheme_separator(trim(url)) ==> normalized(url) == trim(url),
        trim(url).len() > 0 && !has_scheme_separator(trim(url)) ==> normalized(url)
            == HTTPS_PREFIX@ + trim(url),
        trim(normalized(url)) == normalized(url),
{
    reveal_strlit("https://www.google.com");
    reveal_strlit("https://");
    let t = trim(url);
    let n = normalized(url);
    lemma_trim_ends(url);
    if t.len() == 0 {
        lemma_trim_fixed(n);
    } else if has_scheme_separator(t) {
        lemma_trim_fixed(t);
        assert(n.subrange(0, n.len() as int) =~= n);
    } else {
        assert(n.subrange(n.len() - t.len(), n.len() as int) =~= t);
        assert(n[0] == 'h');
        assert(n.last() == t.last());
        lemma_trim_fixed(n);
    }
}

/// Law: the title of a URL is "New Tab" exactly where it normalizes to the
/// default page, and the normalized URL otherwise.
pub proof fn lemma_label_is_url_or_new_tab(url: Seq<char>)
    ensures
        normalized(url) == DEFAULT_URL@ ==> label(url) == NEW_TAB_TITLE@,
        normalized(url) != DEFAULT_URL@ ==> label(url) == normalized(url),
{
}

/// Law: a URL and its normalized form get the same title.
pub proof fn lemma_label_of_normalized(url: Seq<char>)
    ensures
        label(normalized(url)) == label(url),
{
    lemma_normalize_idempotent(url);
}
} // verus!
