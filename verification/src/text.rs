//! Strings as sequences of characters: the few std operations the command
//! line and the protocol need, stated over `Seq<char>`.
use vstd::prelude::*;

verus! {

broadcast use vstd::string::group_string_axioms;

/// Unicode's White_Space property, as `char::is_whitespace` reads it.
pub open spec fn is_ws(c: char) -> bool {
    let n = c as u32;
    (0x09 <= n && n <= 0x0d) || n == 0x20 || n == 0x85 || n == 0xa0 || n == 0x1680
        || (0x2000 <= n && n <= 0x200a) || n == 0x2028 || n == 0x2029 || n == 0x202f
        || n == 0x205f || n == 0x3000
}

/// `s` without the characters meeting `p` at its end.
pub open spec fn drop_end_while(s: Seq<char>, p: spec_fn(char) -> bool) -> Seq<char>
    decreases s.len(),
{
    if s.len() > 0 && p(s.last()) {
        drop_end_while(s.drop_last(), p)
    } else {
        s
    }
}

/// `s` without the characters meeting `p` at its start.
pub open spec fn drop_start_while(s: Seq<char>, p: spec_fn(char) -> bool) -> Seq<char>
    decreases s.len(),
{
    if s.len() > 0 && p(s[0]) {
        drop_start_while(s.drop_first(), p)
    } else {
        s
    }
}

/// Whitespace, as a predicate.
pub open spec fn ws() -> spec_fn(char) -> bool {
    |c: char| is_ws(c)
}

/// One character, as a predicate.
pub open spec fn is_char(c: char) -> spec_fn(char) -> bool {
    |x: char| x == c
}

/// `str::trim`: whitespace off both ends.
pub open spec fn trim(s: Seq<char>) -> Seq<char> {
    drop_start_while(drop_end_while(s, ws()), ws())
}

/// `trim_end_matches(c)`: every trailing `c` off.
pub open spec fn trim_end_char(s: Seq<char>, c: char) -> Seq<char> {
    drop_end_while(s, is_char(c))
}

/// `trim_start_matches(c)`: every leading `c` off.
pub open spec fn trim_start_char(s: Seq<char>, c: char) -> Seq<char> {
    drop_start_while(s, is_char(c))
}

/// Dropping from the end stops at the last character `p` does not take.
pub proof fn lemma_drop_end(s: Seq<char>, p: spec_fn(char) -> bool, k: int)
    requires
        0 <= k <= s.len(),
        forall|j: int| k <= j < s.len() ==> p(#[trigger] s[j]),
        k == 0 || !p(s[k - 1]),
    ensures
        drop_end_while(s, p) == s.subrange(0, k),
    decreases s.len(),
{
    if s.len() == k {
        assert(s.subrange(0, k) == s);
    } else {
        assert(p(s[s.len() - 1]));
        let t = s.drop_last();
        assert forall|j: int| k <= j < t.len() implies p(#[trigger] t[j]) by {
            assert(t[j] == s[j]);
        }
        if k > 0 {
            assert(t[k - 1] == s[k - 1]);
        }
        lemma_drop_end(t, p, k);
        assert(t.subrange(0, k) == s.subrange(0, k));
    }
}

/// Dropping from the start stops at the first character `p` does not take.
pub proof fn lemma_drop_start(s: Seq<char>, p: spec_fn(char) -> bool, k: int)
    requires
        0 <= k <= s.len(),
        forall|j: int| 0 <= j < k ==> p(#[trigger] s[j]),
        k == s.len() || !p(s[k]),
    ensures
        drop_start_while(s, p) == s.subrange(k, s.len() as int),
    decreases s.len(),
{
    if k == 0 {
        assert(s.subrange(0, s.len() as int) == s);
    } else {
        assert(p(s[0]));
        let t = s.drop_first();
        assert forall|j: int| 0 <= j < k - 1 implies p(#[trigger] t[j]) by {
            assert(t[j] == s[j + 1]);
        }
        if k < s.len() {
            assert(t[k - 1] == s[k]);
        }
        lemma_drop_start(t, p, k - 1);
        assert(t.subrange(k - 1, t.len() as int) == s.subrange(k, s.len() as int));
    }
}

/// What dropping from the end leaves: a prefix of `s` that, unless empty,
/// ends in a character `p` does not take.
pub proof fn lemma_drop_end_shape(s: Seq<char>, p: spec_fn(char) -> bool)
    ensures
        drop_end_while(s, p).len() <= s.len(),
        drop_end_while(s, p) == s.subrange(0, drop_end_while(s, p).len() as int),
        drop_end_while(s, p).len() > 0 ==> !p(drop_end_while(s, p).last()),
    decreases s.len(),
{
    if s.len() > 0 && p(s.last()) {
        let t = s.drop_last();
        lemma_drop_end_shape(t, p);
        let r = drop_end_while(t, p);
        assert(r == s.subrange(0, r.len() as int));
    } else {
        assert(s == s.subrange(0, s.len() as int));
    }
}

/// What dropping from the start leaves: a suffix of `s` that, unless
/// empty, starts with a character `p` does not take.
pub proof fn lemma_drop_start_shape(s: Seq<char>, p: spec_fn(char) -> bool)
    ensures
        drop_start_while(s, p).len() <= s.len(),
        drop_start_while(s, p) == s.subrange(
            s.len() - drop_start_while(s, p).len(),
            s.len() as int,
        ),
        drop_start_while(s, p).len() > 0 ==> !p(drop_start_while(s, p)[0]),
    decreases s.len(),
{
    if s.len() > 0 && p(s[0]) {
        let t = s.drop_first();
        lemma_drop_start_shape(t, p);
        let r = drop_start_while(t, p);
        assert(r == s.subrange(s.len() - r.len(), s.len() as int));
    } else {
        assert(s == s.subrange(0, s.len() as int));
    }
}

/// The whitespace test `char::is_whitespace` makes.
pub fn char_is_ws(c: char) -> (b: bool)
    ensures
        b == is_ws(c),
{
    let n = c as u32;
    (0x09 <= n && n <= 0x0d) || n == 0x20 || n == 0x85 || n == 0xa0 || n == 0x1680
        || (0x2000 <= n && n <= 0x200a) || n == 0x2028 || n == 0x2029 || n == 0x202f
        || n == 0x205f || n == 0x3000
}

/// `v[lo..hi]`, copied.
pub fn slice_of(v: &Vec<char>, lo: usize, hi: usize) -> (r: Vec<char>)
    requires
        lo <= hi <= v@.len(),
    ensures
        r@ == v@.subrange(lo as int, hi as int),
{
    let mut r: Vec<char> = Vec::new();
    let mut i = lo;
    while i < hi
        invariant
            lo <= i <= hi <= v@.len(),
            r@ == v@.subrange(lo as int, i as int),
        decreases hi - i,
    {
        r.push(v[i]);
        i = i + 1;
        assert(r@ == v@.subrange(lo as int, i as int));
    }
    r
}

/// `str::trim`, on characters.
pub fn trimmed(v: &Vec<char>) -> (r: Vec<char>)
    ensures
        r@ == trim(v@),
{
    let mut hi = v.len();
    while hi > 0 && char_is_ws(v[hi - 1])
        invariant
            hi <= v@.len(),
            forall|j: int| hi <= j < v@.len() ==> is_ws(#[trigger] v@[j]),
        decreases hi,
    {
        hi = hi - 1;
    }
    proof {
        lemma_drop_end(v@, ws(), hi as int);
    }
    let ghost t = v@.subrange(0, hi as int);
    let mut lo: usize = 0;
    while lo < hi && char_is_ws(v[lo])
        invariant
            lo <= hi <= v@.len(),
            t == v@.subrange(0, hi as int),
            forall|j: int| 0 <= j < lo ==> is_ws(#[trigger] t[j]),
        decreases hi - lo,
    {
        lo = lo + 1;
    }
    proof {
        lemma_drop_start(t, ws(), lo as int);
        assert(t.subrange(lo as int, t.len() as int) == v@.subrange(lo as int, hi as int));
    }
    slice_of(v, lo, hi)
}

/// `trim_end_matches(c)`, on characters.
pub fn trimmed_end_char(v: &Vec<char>, c: char) -> (r: Vec<char>)
    ensures
        r@ == trim_end_char(v@, c),
{
    let mut hi = v.len();
    while hi > 0 && v[hi - 1] == c
        invariant
            hi <= v@.len(),
            forall|j: int| hi <= j < v@.len() ==> #[trigger] v@[j] == c,
        decreases hi,
    {
        hi = hi - 1;
    }
    proof {
        lemma_drop_end(v@, is_char(c), hi as int);
    }
    slice_of(v, 0, hi)
}

/// `trim_start_matches(c)`, on characters.
pub fn trimmed_start_char(v: &Vec<char>, c: char) -> (r: Vec<char>)
    ensures
        r@ == trim_start_char(v@, c),
{
    let mut lo: usize = 0;
    while lo < v.len() && v[lo] == c
        invariant
            lo <= v@.len(),
            forall|j: int| 0 <= j < lo ==> #[trigger] v@[j] == c,
        decreases v@.len() - lo,
    {
        lo = lo + 1;
    }
    proof {
        lemma_drop_start(v@, is_char(c), lo as int);
    }
    slice_of(v, lo, v.len())
}

/// Whether `s` begins with `p`.
pub open spec fn starts_with(s: Seq<char>, p: Seq<char>) -> bool {
    p.len() <= s.len() && s.subrange(0, p.len() as int) == p
}

/// Whether `p` occurs anywhere in `s`.
pub open spec fn contains_seq(s: Seq<char>, p: Seq<char>) -> bool {
    exists|i: int| 0 <= i && i + p.len() <= s.len() && #[trigger] s.subrange(i, i + p.len()) == p
}

/// The characters of `s`, as a vector.
pub fn chars_of(s: &str) -> (v: Vec<char>)
    ensures
        v@ == s@,
{
    let mut v: Vec<char> = Vec::new();
    for c in it: s.chars()
        invariant
            v@ == it.seq().take(it.index() as int),
    {
        v.push(c);
    }
    v
}

/// Whether `v` begins with `p`.
pub fn has_prefix(v: &Vec<char>, p: &Vec<char>) -> (b: bool)
    ensures
        b == starts_with(v@, p@),
{
    if p.len() > v.len() {
        return false;
    }
    let mut i: usize = 0;
    while i < p.len()
        invariant
            p@.len() <= v@.len(),
            i <= p@.len(),
            forall|j: int| 0 <= j < i ==> v@[j] == p@[j],
        decreases p@.len() - i,
    {
        if v[i] != p[i] {
            assert(v@.subrange(0, p@.len() as int)[i as int] != p@[i as int]);
            return false;
        }
        i = i + 1;
    }
    assert(v@.subrange(0, p@.len() as int) == p@);
    true
}

/// Whether `p` occurs in `v` at `at`.
fn occurs_at(v: &Vec<char>, p: &Vec<char>, at: usize) -> (b: bool)
    requires
        at + p@.len() <= v@.len(),
    ensures
        b == (v@.subrange(at as int, at + p@.len()) == p@),
{
    let mut i: usize = 0;
    while i < p.len()
        invariant
            at + p@.len() <= v@.len(),
            v@.len() == v.len(),
            i <= p@.len(),
            forall|j: int| 0 <= j < i ==> v@[at + j] == p@[j],
        decreases p@.len() - i,
    {
        if v[at + i] != p[i] {
            assert(v@.subrange(at as int, at + p@.len())[i as int] != p@[i as int]);
            return false;
        }
        i = i + 1;
    }
    assert(v@.subrange(at as int, at + p@.len()) == p@);
    true
}

/// Whether `p` occurs anywhere in `v`.
pub fn has_infix(v: &Vec<char>, p: &Vec<char>) -> (b: bool)
    ensures
        b == contains_seq(v@, p@),
{
    if p.len() > v.len() {
        return false;
    }
    let last = v.len() - p.len();
    let mut at: usize = 0;
    while at <= last
        invariant
            last + p@.len() == v@.len(),
            at <= last,
            forall|i: int| 0 <= i < at ==> #[trigger] v@.subrange(i, i + p@.len()) != p@,
        decreases last + 1 - at,
    {
        if occurs_at(v, p, at) {
            return true;
        }
        if at == last {
            return false;
        }
        at = at + 1;
    }
    false
}

/// `String::push`, as vstd leaves it unstated.
#[verifier::external_body]
fn push_char(s: &mut String, c: char)
    ensures
        final(s)@ == old(s)@.push(c),
{
    s.push(c);
}

/// The string the characters `v` spell.
pub fn string_of(v: &Vec<char>) -> (s: String)
    ensures
        s@ == v@,
{
    let mut s = String::new();
    let mut i: usize = 0;
    while i < v.len()
        invariant
            i <= v@.len(),
            s@ == v@.subrange(0, i as int),
        decreases v@.len() - i,
    {
        push_char(&mut s, v[i]);
        i = i + 1;
        assert(s@ == v@.subrange(0, i as int));
    }
    assert(v@.subrange(0, v@.len() as int) == v@);
    s
}

/// `a` followed by `b`.
pub fn joined(a: &str, b: &str) -> (s: String)
    ensures
        s@ == a@ + b@,
{
    let mut v = chars_of(a);
    let w = chars_of(b);
    let mut i: usize = 0;
    let ghost start = v@;
    while i < w.len()
        invariant
            i <= w@.len(),
            start == a@,
            w@ == b@,
            v@ == start + w@.subrange(0, i as int),
        decreases w@.len() - i,
    {
        v.push(w[i]);
        i = i + 1;
        assert(v@ == start + w@.subrange(0, i as int));
    }
    assert(w@.subrange(0, w@.len() as int) == w@);
    string_of(&v)
}

/// How `{:?}` writes a string: quoted, with its escapes.
pub uninterp spec fn debug_quoted(s: Seq<char>) -> Seq<char>;

/// `format!("{:?}", s)` - the standard library's `Debug` for `str`. Claims
/// only that the result is a function of `s`: what the escapes are is
/// left unsaid.
#[verifier::external_body]
pub(crate) fn quoted(s: &str) -> (q: String)
    ensures
        q@ == debug_quoted(s@),
{
    format!("{s:?}")
}

/// An optional string's characters.
pub open spec fn opt_view(o: Option<String>) -> Option<Seq<char>> {
    match o {
        Some(s) => Some(s@),
        None => None,
    }
}

/// A copy of an optional string.
pub fn copy_opt(o: &Option<String>) -> (r: Option<String>)
    ensures
        opt_view(r) == opt_view(*o),
{
    match o {
        Some(s) => Some(s.clone()),
        None => None,
    }
}

/// The decimal digit `d`.
pub open spec fn digit(d: nat) -> char {
    ((d + 48) as u32) as char
}

/// `n` written in decimal, as `to_string` writes it.
pub open spec fn decimal_spec(n: nat) -> Seq<char>
    decreases n,
{
    if n < 10 {
        seq![digit(n)]
    } else {
        decimal_spec(n / 10).push(digit(n % 10))
    }
}

/// `n` written in decimal.
pub fn decimal(n: u64) -> (s: String)
    ensures
        s@ == decimal_spec(n as nat),
    decreases n,
{
    if n < 10 {
        let mut s = String::new();
        push_char(&mut s, char_of_digit(n));
        s
    } else {
        let mut s = decimal(n / 10);
        push_char(&mut s, char_of_digit(n % 10));
        s
    }
}

/// The character of the decimal digit `d`.
fn char_of_digit(d: u64) -> (c: char)
    requires
        d < 10,
    ensures
        c == digit(d as nat),
{
    ((d + 48) as u8) as char
}

} // verus!
