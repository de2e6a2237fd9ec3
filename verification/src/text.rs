use vstd::prelude::*;

verus! {

/// Collects the characters of `s` into a vector.
pub fn chars_of(s: &str) -> (v: Vec<char>)
    ensures
        v@ == s@,
{
    let mut v: Vec<char> = Vec::new();
    for c in it: s.chars()
        invariant
            v@ == it.seq().take(it.index() as int),
            it.seq() == s@,
    {
        v.push(c);
    }
    v
}

/// Builds a string from its characters (`String: FromIterator<char>`).
#[verifier::external_body]
pub fn string_from_chars(chars: &Vec<char>) -> (s: String)
    ensures
        s@ == chars@,
{
    chars.iter().collect()
}

/// Unicode's `White_Space` property, the set that `char::is_whitespace` tests.
pub open spec fn is_whitespace(c: char) -> bool {
    let u = c as u32;
    ||| 0x09 <= u <= 0x0d
    ||| u == 0x20
    ||| u == 0x85
    ||| u == 0xa0
    ||| u == 0x1680
    ||| 0x2000 <= u <= 0x200a
    ||| u == 0x2028
    ||| u == 0x2029
    ||| u == 0x202f
    ||| u == 0x205f
    ||| u == 0x3000
}

/// Whether `c` is white space in the sense of `char::is_whitespace`.
pub fn is_whitespace_char(c: char) -> (b: bool)
    ensures
        b == is_whitespace(c),
{
    let u = c as u32;
    (0x09 <= u && u <= 0x0d) || u == 0x20 || u == 0x85 || u == 0xa0 || u == 0x1680 || (0x2000
        <= u && u <= 0x200a) || u == 0x2028 || u == 0x2029 || u == 0x202f || u == 0x205f || u
        == 0x3000
}

/// The number of white-space characters at the start of `s`.
pub open spec fn leading_ws_len(s: Seq<char>) -> nat
    decreases s.len(),
{
    if s.len() == 0 || !is_whitespace(s[0]) {
        0
    } else {
        1 + leading_ws_len(s.drop_first())
    }
}

/// The number of white-space characters at the end of `s`.
pub open spec fn trailing_ws_len(s: Seq<char>) -> nat
    decreases s.len(),
{
    if s.len() == 0 || !is_whitespace(s.last()) {
        0
    } else {
        1 + trailing_ws_len(s.drop_last())
    }
}

/// `s` without its leading and trailing white space, as `str::trim` gives it.
pub open spec fn trimmed(s: Seq<char>) -> Seq<char> {
    let rest = s.skip(leading_ws_len(s) as int);
    rest.take(rest.len() - trailing_ws_len(rest))
}

proof fn lemma_leading_ws_len_bound(s: Seq<char>)
    ensures
        leading_ws_len(s) <= s.len(),
    decreases s.len(),
{
    if s.len() > 0 && is_whitespace(s[0]) {
        lemma_leading_ws_len_bound(s.drop_first());
    }
}

proof fn lemma_trailing_ws_len_bound(s: Seq<char>)
    ensures
        trailing_ws_len(s) <= s.len(),
    decreases s.len(),
{
    if s.len() > 0 && is_whitespace(s.last()) {
        lemma_trailing_ws_len_bound(s.drop_last());
    }
}

/// When the first `k` characters of `s` are white space and the next one (if
/// any) is not, the leading white space is exactly `k` long.
proof fn lemma_leading_ws_len_at(s: Seq<char>, k: int)
    requires
        0 <= k <= s.len(),
        forall|j: int| 0 <= j < k ==> is_whitespace(#[trigger] s[j]),
        k == s.len() || !is_whitespace(s[k]),
    ensures
        leading_ws_len(s) == k,
    decreases k,
{
    if k > 0 {
        let t = s.drop_first();
        assert forall|j: int| 0 <= j < k - 1 implies is_whitespace(#[trigger] t[j]) by {
            assert(t[j] == s[j + 1]);
        }
        if k - 1 < t.len() {
            assert(t[k - 1] == s[k]);
        }
        lemma_leading_ws_len_at(t, k - 1);
    }
}

/// When the last `k` characters of `s` are white space and the one before them
/// (if any) is not, the trailing white space is exactly `k` long.
proof fn lemma_trailing_ws_len_at(s: Seq<char>, k: int)
    requires
        0 <= k <= s.len(),
        forall|j: int| s.len() - k <= j < s.len() ==> is_whitespace(#[trigger] s[j]),
        k == s.len() || !is_whitespace(s[s.len() - k - 1]),
    ensures
        trailing_ws_len(s) == k,
    decreases k,
{
    if k > 0 {
        let t = s.drop_last();
        assert forall|j: int| t.len() - (k - 1) <= j < t.len() implies is_whitespace(
            #[trigger] t[j],
        ) by {
            assert(t[j] == s[j]);
        }
        if k - 1 < t.len() {
            assert(t[t.len() - (k - 1) - 1] == s[s.len() - k - 1]);
        }
        lemma_trailing_ws_len_at(t, k - 1);
    }
}

/// Removes leading and trailing white space, as `str::trim` does.
pub fn trim(s: &str) -> (t: String)
    ensures
        t@ == trimmed(s@),
{
    let chars = chars_of(s);
    let n = chars.len();
    let mut start: usize = 0;
    while start < n && is_whitespace_char(chars[start])
        invariant
            n == chars@.len(),
            start <= n,
            forall|j: int| 0 <= j < start ==> is_whitespace(#[trigger] chars@[j]),
        decreases n - start,
    {
        start = start + 1;
    }
    let mut end: usize = n;
    while end > start && is_whitespace_char(chars[end - 1])
        invariant
            n == chars@.len(),
            start <= end <= n,
            forall|j: int| end <= j < n ==> is_whitespace(#[trigger] chars@[j]),
        decreases end - start,
    {
        end = end - 1;
    }
    proof {
        lemma_leading_ws_len_at(chars@, start as int);
        let rest = chars@.skip(start as int);
        assert forall|j: int| rest.len() - (n - end) <= j < rest.len() implies is_whitespace(
            #[trigger] rest[j],
        ) by {
            assert(rest[j] == chars@[j + start]);
        }
        if end > start {
            assert(rest[rest.len() - (n - end) - 1] == chars@[end - 1]);
        }
        lemma_trailing_ws_len_at(rest, (n - end) as int);
        assert(rest.take(rest.len() - (n - end)) =~= chars@.subrange(start as int, end as int));
    }
    substring(&chars, start, end)
}

/// The characters `chars[start..end]` as a string.
pub fn substring(chars: &Vec<char>, start: usize, end: usize) -> (s: String)
    requires
        start <= end <= chars@.len(),
    ensures
        s@ == chars@.subrange(start as int, end as int),
{
    let mut piece: Vec<char> = Vec::new();
    let mut i = start;
    while i < end
        invariant
            start <= i <= end <= chars@.len(),
            piece@ == chars@.subrange(start as int, i as int),
        decreases end - i,
    {
        piece.push(chars[i]);
        i = i + 1;
        assert(piece@ =~= chars@.subrange(start as int, i as int));
    }
    string_from_chars(&piece)
}

/// The texts of a sequence of strings.
pub open spec fn string_views(v: Seq<String>) -> Seq<Seq<char>> {
    v.map_values(|s: String| s@)
}

/// Trimming twice is trimming once.
pub proof fn law_trim_idempotent(s: Seq<char>)
    ensures
        trimmed(trimmed(s)) == trimmed(s),
{
    lemma_leading_ws_len_bound(s);
    let rest = s.skip(leading_ws_len(s) as int);
    lemma_trailing_ws_len_bound(rest);
    let t = trimmed(s);
    let k = trailing_ws_len(rest);
    // the first character of `t`, if any, is not white space
    if t.len() > 0 {
        lemma_first_not_ws(s);
        assert(t[0] == rest[0]);
        lemma_last_not_ws(rest);
        assert(t.last() == rest[rest.len() - k - 1]);
    }
    lemma_leading_ws_len_at(t, 0);
    assert(t.skip(0) =~= t);
    lemma_trailing_ws_len_at(t, 0);
    assert(t.take(t.len() as int) =~= t);
}

proof fn lemma_first_not_ws(s: Seq<char>)
    ensures
        leading_ws_len(s) < s.len() ==> !is_whitespace(s[leading_ws_len(s) as int]),
    decreases s.len(),
{
    if s.len() > 0 && is_whitespace(s[0]) {
        let t = s.drop_first();
        lemma_first_not_ws(t);
        if leading_ws_len(t) < t.len() {
            assert(t[leading_ws_len(t) as int] == s[leading_ws_len(s) as int]);
        }
    }
}

proof fn lemma_last_not_ws(s: Seq<char>)
    ensures
        trailing_ws_len(s) < s.len() ==> !is_whitespace(s[s.len() - trailing_ws_len(s) - 1]),
    decreases s.len(),
{
    if s.len() > 0 && is_whitespace(s.last()) {
        let t = s.drop_last();
        lemma_last_not_ws(t);
        lemma_trailing_ws_len_bound(t);
        if trailing_ws_len(t) < t.len() {
            assert(t[t.len() - trailing_ws_len(t) - 1] == s[s.len() - trailing_ws_len(s) - 1]);
        }
    }
}

} // verus!
