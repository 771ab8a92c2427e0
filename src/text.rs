//! Character-level helpers shared by the extractors.
use vstd::prelude::*;
use vstd::string::StrSliceExecFns;

verus! {

/// The characters of `s`, in order.
pub(crate) fn chars_of(s: &str) -> (r: Vec<char>)
    ensures
        r@ == s@,
{
    let n = s.unicode_len();
    let mut r: Vec<char> = Vec::new();
    let mut i: usize = 0;
    while i < n
        invariant
            i <= n == s@.len(),
            r@ == s@.take(i as int),
        decreases n - i,
    {
        r.push(s.get_char(i));
        assert(s@.take(i + 1) =~= s@.take(i as int).push(s@[i as int]));
        i = i + 1;
    }
    assert(s@.take(n as int) =~= s@);
    r
}

/// Relies on `String: FromIterator<char>`: the string made of the characters of `v`, in order.
#[verifier::external_body]
pub(crate) fn string_of(v: &[char]) -> (r: String)
    ensures
        r@ == v@,
{
    v.iter().collect()
}

/// Unicode `White_Space`, the set that `char::is_whitespace` and `str::trim` use.
pub open spec fn is_space(c: char) -> bool {
    ||| ('\t' <= c && c <= '\r')
    ||| c == ' '
    ||| c == '\u{85}'
    ||| c == '\u{A0}'
    ||| c == '\u{1680}'
    ||| ('\u{2000}' <= c && c <= '\u{200A}')
    ||| c == '\u{2028}'
    ||| c == '\u{2029}'
    ||| c == '\u{202F}'
    ||| c == '\u{205F}'
    ||| c == '\u{3000}'
}

pub fn is_space_char(c: char) -> (r: bool)
    ensures
        r == is_space(c),
{
    ('\t' <= c && c <= '\r') || c == ' ' || c == '\u{85}' || c == '\u{A0}' || c == '\u{1680}'
        || ('\u{2000}' <= c && c <= '\u{200A}') || c == '\u{2028}' || c == '\u{2029}'
        || c == '\u{202F}' || c == '\u{205F}' || c == '\u{3000}'
}

/// `s` without its leading white space.
pub open spec fn trim_start(s: Seq<char>) -> Seq<char>
    decreases s.len(),
{
    if s.len() > 0 && is_space(s[0]) {
        trim_start(s.drop_first())
    } else {
        s
    }
}

/// `s` without its trailing white space.
pub open spec fn trim_end(s: Seq<char>) -> Seq<char>
    decreases s.len(),
{
    if s.len() > 0 && is_space(s.last()) {
        trim_end(s.drop_last())
    } else {
        s
    }
}

/// `s` without leading and trailing white space.
pub open spec fn trim(s: Seq<char>) -> Seq<char> {
    trim_end(trim_start(s))
}

/// `s` without one trailing comma, if it ends with one.
pub open spec fn drop_comma(s: Seq<char>) -> Seq<char> {
    if s.len() > 0 && s.last() == ',' {
        s.drop_last()
    } else {
        s
    }
}

/// Text of a page element as stored: trimmed, a trailing comma dropped, trimmed again.
pub open spec fn sanitized(s: Seq<char>) -> Seq<char> {
    trim(drop_comma(trim(s)))
}

/// The characters of `v` from `from` up to `to`.
pub fn sub_chars(v: &[char], from: usize, to: usize) -> (r: Vec<char>)
    requires
        from <= to <= v@.len(),
    ensures
        r@ == v@.subrange(from as int, to as int),
{
    let mut r: Vec<char> = Vec::new();
    let mut i: usize = from;
    while i < to
        invariant
            from <= i <= to <= v@.len(),
            r@ == v@.subrange(from as int, i as int),
        decreases to - i,
    {
        r.push(v[i]);
        assert(r@ =~= v@.subrange(from as int, i + 1));
        i = i + 1;
    }
    r
}

/// The characters of `v` without leading and trailing white space.
pub fn trim_chars(v: &[char]) -> (r: Vec<char>)
    ensures
        r@ == trim(v@),
{
    let n = v.len();
    let mut i: usize = 0;
    assert(v@.subrange(0, n as int) =~= v@);
    while i < n && is_space_char(v[i])
        invariant
            i <= n == v@.len(),
            trim_start(v@) == trim_start(v@.subrange(i as int, n as int)),
        decreases n - i,
    {
        assert(v@.subrange(i as int, n as int).drop_first() =~= v@.subrange(i + 1, n as int));
        i = i + 1;
    }
    assert(trim_start(v@.subrange(i as int, n as int)) == v@.subrange(i as int, n as int));
    let mut j: usize = n;
    while j > i && is_space_char(v[j - 1])
        invariant
            i <= j <= n == v@.len(),
            trim_end(v@.subrange(i as int, n as int)) == trim_end(v@.subrange(i as int, j as int)),
        decreases j,
    {
        assert(v@.subrange(i as int, j as int).drop_last() =~= v@.subrange(i as int, j - 1));
        j = j - 1;
    }
    assert(trim_end(v@.subrange(i as int, j as int)) == v@.subrange(i as int, j as int));
    sub_chars(v, i, j)
}

/// The characters of `v` without one trailing comma.
pub fn drop_comma_chars(v: &[char]) -> (r: Vec<char>)
    ensures
        r@ == drop_comma(v@),
{
    if v.len() > 0 && v[v.len() - 1] == ',' {
        sub_chars(v, 0, v.len() - 1)
    } else {
        sub_chars(v, 0, v.len())
    }
}

/// Cleans the text of a page element: surrounding white space and one
/// trailing comma (which the retailer puts after contributor names) go.
pub fn sanitize_string(input: String) -> (r: String)
    ensures
        r@ == sanitized(input@),
{
    let v = chars_of(input.as_str());
    let t = trim_chars(v.as_slice());
    let d = drop_comma_chars(t.as_slice());
    let u = trim_chars(d.as_slice());
    string_of(u.as_slice())
}


/// Index of the first `c` in `s` at or after `i`, or `s.len()` where none is.
pub open spec fn find_from(s: Seq<char>, c: char, i: int) -> int
    decreases s.len() - i,
{
    if i < 0 || i >= s.len() {
        s.len() as int
    } else if s[i] == c {
        i
    } else {
        find_from(s, c, i + 1)
    }
}

/// Index of the last `c` in `s` before `j`, or -1 where none is.
pub open spec fn rfind_before(s: Seq<char>, c: char, j: int) -> int
    decreases j,
{
    if j <= 0 || j > s.len() {
        -1
    } else if s[j - 1] == c {
        j - 1
    } else {
        rfind_before(s, c, j - 1)
    }
}

pub proof fn lemma_find_from_bounds(s: Seq<char>, c: char, i: int)
    requires
        0 <= i <= s.len(),
    ensures
        i <= find_from(s, c, i) <= s.len(),
        find_from(s, c, i) < s.len() ==> s[find_from(s, c, i)] == c,
        forall|k: int| i <= k < find_from(s, c, i) ==> s[k] != c,
    decreases s.len() - i,
{
    if i < s.len() && s[i] != c {
        lemma_find_from_bounds(s, c, i + 1);
    }
}

/// Index of the first `c` in `v` at or after `from`.
pub fn find_char(v: &[char], c: char, from: usize) -> (r: usize)
    requires
        from <= v@.len(),
    ensures
        r as int == find_from(v@, c, from as int),
{
    let mut i: usize = from;
    while i < v.len() && v[i] != c
        invariant
            from <= i <= v@.len(),
            find_from(v@, c, from as int) == find_from(v@, c, i as int),
        decreases v@.len() - i,
    {
        i = i + 1;
    }
    i
}

/// The pattern of an HTML tag: `<`, one or more characters other than `>`, then `>`.
pub open spec fn tag_pattern() -> Seq<char> {
    "<[^>]+>"@
}

/// Length of the HTML tag that `s` starts with, if it starts with one: a `<`
/// whose first following `>` comes after at least one other character.
pub open spec fn leading_tag_len(s: Seq<char>) -> Option<int> {
    if s.len() > 0 && s[0] == '<' && 2 <= find_from(s, '>', 1) < s.len() {
        Some(find_from(s, '>', 1) + 1)
    } else {
        None
    }
}

/// `s` with every HTML tag removed, scanning from the left as a regex engine does.
pub open spec fn without_tags(s: Seq<char>) -> Seq<char>
    decreases s.len(),
{
    if s.len() == 0 {
        s
    } else {
        match leading_tag_len(s) {
            Some(n) => without_tags(s.skip(n)),
            None => seq![s[0]] + without_tags(s.skip(1)),
        }
    }
}

/// Relies on `regex::Regex::new` and `Regex::replace_all` with an empty
/// replacement. For the tag pattern, the regex crate's leftmost-first,
/// non-overlapping search removes exactly the tags that `without_tags` removes.
#[verifier::external_body]
fn regex_remove_all(pattern: &str, text: &str) -> (r: Option<String>)
    ensures
        pattern@ == tag_pattern() ==> r is Some && r.unwrap()@ == without_tags(text@),
{
    regex::Regex::new(pattern).ok().map(|re| re.replace_all(text, "").into_owned())
}

/// Removes every HTML tag from `string`, keeping the text between tags.
/// Markup inside the elements the scraper reads changes without notice, so
/// the scraper keeps only their text.
pub fn strip_tags(string: String) -> (r: String)
    ensures
        r@ == without_tags(string@),
{
    let pattern: &str = "<[^>]+>";
    match regex_remove_all(pattern, string.as_str()) {
        Some(t) => t,
        None => {
            // the pattern is the tag pattern, for which the call succeeds
            assert(false);
            string
        },
    }
}

/// The last `/`-separated segment of the part of `url` before the first `?`.
pub open spec fn asin_of_url(url: Seq<char>) -> Seq<char> {
    let path = url.take(find_from(url, '?', 0));
    path.skip(rfind_before(path, '/', path.len() as int) + 1)
}

/// One past the index of the last `c` in `v` before `j`, or 0 where none is.
fn after_last_char(v: &[char], c: char, j: usize) -> (r: usize)
    requires
        j <= v@.len(),
    ensures
        r as int == rfind_before(v@, c, j as int) + 1,
        r <= j,
{
    let mut k: usize = j;
    while k > 0 && v[k - 1] != c
        invariant
            k <= j <= v@.len(),
            rfind_before(v@, c, j as int) == rfind_before(v@, c, k as int),
        decreases k,
    {
        k = k - 1;
    }
    k
}

/// The product id in a product link such as
/// `/gp/product/B0DLX35C16?ref_=...`: the query is dropped, then the last path
/// segment is taken.
pub fn extract_asin(url: String) -> (r: String)
    ensures
        r@ == asin_of_url(url@),
{
    let v = chars_of(url.as_str());
    let q = find_char(v.as_slice(), '?', 0);
    proof {
        lemma_find_from_bounds(v@, '?', 0);
    }
    let path = sub_chars(v.as_slice(), 0, q);
    assert(path@ == v@.take(q as int));
    let start = after_last_char(path.as_slice(), '/', path.len());
    let asin = sub_chars(path.as_slice(), start, path.len());
    assert(asin@ =~= path@.skip(start as int));
    string_of(asin.as_slice())
}


/// The words of `s`: its maximal runs of characters other than white space,
/// in order (what `str::split_whitespace` gives).
pub open spec fn words(s: Seq<char>) -> Seq<Seq<char>>
    decreases s.len(),
{
    if s.len() == 0 {
        Seq::empty()
    } else {
        let w = words(s.drop_last());
        let c = s.last();
        if is_space(c) {
            w
        } else if s.len() >= 2 && !is_space(s[s.len() - 2]) && w.len() > 0 {
            w.update(w.len() - 1, w.last().push(c))
        } else {
            w.push(seq![c])
        }
    }
}

/// The words of `v`; see `words`.
pub fn split_words(v: &[char]) -> (r: Vec<Vec<char>>)
    ensures
        r@.map_values(|w: Vec<char>| w@) == words(v@),
{
    let mut out: Vec<Vec<char>> = Vec::new();
    let mut in_word = false;
    let mut i: usize = 0;
    assert(v@.take(0) =~= Seq::<char>::empty());
    assert(out@.map_values(|w: Vec<char>| w@) =~= Seq::<Seq<char>>::empty());
    while i < v.len()
        invariant
            i <= v@.len(),
            out@.map_values(|w: Vec<char>| w@) == words(v@.take(i as int)),
            in_word == (i > 0 && !is_space(v@[i - 1])),
            in_word ==> out@.len() > 0,
        decreases v@.len() - i,
    {
        let ghost t = v@.take(i + 1);
        assert(t.drop_last() =~= v@.take(i as int));
        assert(t.last() == v@[i as int]);
        if i > 0 {
            assert(t[t.len() - 2] == v@[i - 1]);
        }
        let ghost prev = out@.map_values(|w: Vec<char>| w@);
        let c = v[i];
        if is_space_char(c) {
            in_word = false;
        } else if in_word {
            let mut last = out.pop().unwrap();
            let ghost before = last@;
            last.push(c);
            out.push(last);
            assert(out@.map_values(|w: Vec<char>| w@) =~= prev.update(prev.len() - 1, prev.last().push(c)));
        } else {
            let mut w: Vec<char> = Vec::new();
            w.push(c);
            out.push(w);
            assert(out@.map_values(|w: Vec<char>| w@) =~= prev.push(seq![c]));
            in_word = true;
        }
        i = i + 1;
    }
    assert(v@.take(i as int) =~= v@);
    out
}

} // verus!
