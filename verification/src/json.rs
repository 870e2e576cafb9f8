//! JSON documents and the parts of them a pointer names.
use vstd::prelude::*;
use crate::observe::same_chars;
use crate::text::{chars_of, debug_quoted, decimal, decimal_spec, joined, quoted, string_of};

verus! {

/// A number as JSON holds it.
#[derive(PartialEq, Eq, Structural, Clone, Copy, Debug)]
pub enum JsonNumber {
    PosInt(u64),
    NegInt(i64),
    Float(u64),
}

/// A JSON value. An object's members are in the order of their names, one
/// member to a name, as a map keeps them.
#[derive(Debug)]
pub enum JsonValue {
    Null,
    Bool(bool),
    Number(JsonNumber),
    String(String),
    Array(Vec<JsonValue>),
    Object(Vec<(String, JsonValue)>),
}

/// A JSON value, as mathematics.
pub enum Json {
    Null,
    Bool(bool),
    Number(JsonNumber),
    Str(Seq<char>),
    Array(Seq<Json>),
    Object(Seq<(Seq<char>, Json)>),
}

impl JsonValue {
    pub open spec fn model(self) -> Json
        decreases self, 0nat,
    {
        match self {
            JsonValue::Null => Json::Null,
            JsonValue::Bool(b) => Json::Bool(b),
            JsonValue::Number(n) => Json::Number(n),
            JsonValue::String(s) => Json::Str(s@),
            JsonValue::Array(items) => Json::Array(models(items@)),
            JsonValue::Object(members) => Json::Object(member_models(members@)),
        }
    }
}

pub open spec fn models(items: Seq<JsonValue>) -> Seq<Json>
    decreases items, 1nat,
{
    if items.len() == 0 {
        Seq::empty()
    } else {
        models(items.drop_last()).push(items.last().model())
    }
}

pub open spec fn member_models(members: Seq<(String, JsonValue)>) -> Seq<(Seq<char>, Json)>
    decreases members, 1nat,
{
    if members.len() == 0 {
        Seq::empty()
    } else {
        member_models(members.drop_last()).push((members.last().0@, members.last().1.model()))
    }
}


/// How many values `models` gives, and which.
pub proof fn lemma_models(items: Seq<JsonValue>)
    ensures
        models(items).len() == items.len(),
        forall|i: int| 0 <= i < items.len() ==> #[trigger] models(items)[i] == items[i].model(),
    decreases items.len(),
{
    if items.len() > 0 {
        lemma_models(items.drop_last());
    }
}

/// How many members `member_models` gives, and which.
pub proof fn lemma_member_models(members: Seq<(String, JsonValue)>)
    ensures
        member_models(members).len() == members.len(),
        forall|i: int|
            0 <= i < members.len() ==> #[trigger] member_models(members)[i] == (
                members[i].0@,
                members[i].1.model(),
            ),
    decreases members.len(),
{
    if members.len() > 0 {
        lemma_member_models(members.drop_last());
    }
}

impl JsonValue {
    /// A copy of the value, the same all the way down.
    pub fn copy(&self) -> (r: JsonValue)
        ensures
            r.model() == self.model(),
        decreases self,
    {
        match self {
            JsonValue::Null => JsonValue::Null,
            JsonValue::Bool(b) => JsonValue::Bool(*b),
            JsonValue::Number(n) => JsonValue::Number(*n),
            JsonValue::String(s) => JsonValue::String(s.clone()),
            JsonValue::Array(items) => {
                let mut out: Vec<JsonValue> = Vec::new();
                let mut i: usize = 0;
                while i < items.len()
                    invariant
                        i <= items@.len(),
                        *self == JsonValue::Array(*items),
                        models(out@) == models(items@.take(i as int)),
                    decreases items@.len() - i,
                {
                    proof {
                        assert(decreases_to!(items@ => items@[i as int]));
                        assert(decreases_to!(*items => items@));
                        assert(decreases_to!(*self => self->Array_0));
                        assert(decreases_to!(self => items@[i as int]));
                    }
                    let c = items[i].copy();
                    let ghost prev = out@;
                    out.push(c);
                    assert(out@.drop_last() =~= prev);
                    assert(items@.take(i + 1).drop_last() =~= items@.take(i as int));
                    i = i + 1;
                }
                assert(items@.take(items@.len() as int) =~= items@);
                JsonValue::Array(out)
            },
            JsonValue::Object(members) => {
                let mut out: Vec<(String, JsonValue)> = Vec::new();
                let mut i: usize = 0;
                while i < members.len()
                    invariant
                        i <= members@.len(),
                        *self == JsonValue::Object(*members),
                        member_models(out@) == member_models(members@.take(i as int)),
                    decreases members@.len() - i,
                {
                    let k = members[i].0.clone();
                    proof {
                        assert(decreases_to!(members@ => members@[i as int]));
                        assert(decreases_to!(members@[i as int] => members@[i as int].1));
                        assert(decreases_to!(*members => members@));
                        assert(decreases_to!(*self => self->Object_0));
                        assert(decreases_to!(self => members@[i as int].1));
                    }
                    let c = members[i].1.copy();
                    let ghost prev = out@;
                    out.push((k, c));
                    assert(out@.drop_last() =~= prev);
                    assert(members@.take(i + 1).drop_last() =~= members@.take(i as int));
                    i = i + 1;
                }
                assert(members@.take(members@.len() as int) =~= members@);
                JsonValue::Object(out)
            },
        }
    }
}


/// The pieces of `s` between its `/`s: one more than there are `/`s.
pub open spec fn split_slash(s: Seq<char>) -> Seq<Seq<char>>
    decreases s.len(),
{
    if s.len() == 0 {
        seq![Seq::empty()]
    } else {
        let r = split_slash(s.drop_last());
        if s.last() == '/' {
            r.push(Seq::empty())
        } else {
            r.update(r.len() - 1, r.last().push(s.last()))
        }
    }
}

/// `s` with each `~` followed by `d` replaced by `c`, left to right.
pub open spec fn replace_tilde(s: Seq<char>, d: char, c: char) -> Seq<char>
    decreases s.len(),
{
    if s.len() == 0 {
        s
    } else if s.len() >= 2 && s[0] == '~' && s[1] == d {
        seq![c] + replace_tilde(s.skip(2), d, c)
    } else {
        seq![s[0]] + replace_tilde(s.skip(1), d, c)
    }
}

/// A reference token as it names a member: `~1` read as `/`, then `~0`
/// as `~`.
pub open spec fn unescape(t: Seq<char>) -> Seq<char> {
    replace_tilde(replace_tilde(t, '1', '/'), '0', '~')
}

/// Whether `p` is a JSON pointer: empty, or starting with `/`.
pub open spec fn is_pointer(p: Seq<char>) -> bool {
    p.len() == 0 || p[0] == '/'
}

/// The reference tokens of the pointer `p`, unescaped.
pub open spec fn pointer_tokens(p: Seq<char>) -> Seq<Seq<char>> {
    if p.len() == 0 {
        Seq::empty()
    } else {
        split_slash(p.skip(1)).map_values(|t: Seq<char>| unescape(t))
    }
}

/// Whether `c` is a decimal digit.
pub open spec fn is_digit(c: char) -> bool {
    '0' <= c && c <= '9'
}

/// The number the digits `s` write.
pub open spec fn digits_value(s: Seq<char>) -> nat
    decreases s.len(),
{
    if s.len() == 0 {
        0
    } else {
        digits_value(s.drop_last()) * 10 + ((s.last() as nat) - ('0' as nat)) as nat
    }
}

/// Whether `s` is one or more decimal digits.
pub open spec fn all_digits(s: Seq<char>) -> bool {
    s.len() > 0 && forall|i: int| 0 <= i < s.len() ==> is_digit(#[trigger] s[i])
}

/// The index a token names in a list, when a pointer is read: digits with
/// no leading zero (`0` itself aside).
pub open spec fn array_index(t: Seq<char>) -> Option<nat> {
    if all_digits(t) && !(t[0] == '0' && t.len() != 1) {
        Some(digits_value(t))
    } else {
        None
    }
}

/// The index a token names when a value is set in a list: what `usize`'s
/// parser takes - digits after an optional `+`, within `usize`.
pub open spec fn parse_usize(t: Seq<char>) -> Option<nat> {
    let body = if t.len() > 0 && t[0] == '+' {
        t.skip(1)
    } else {
        t
    };
    if all_digits(body) && digits_value(body) <= usize::MAX {
        Some(digits_value(body))
    } else {
        None
    }
}

/// The position of the first member named `k`, or the count of members
/// when none is.
pub open spec fn key_at(ms: Seq<(Seq<char>, Json)>, k: Seq<char>) -> int
    decreases ms.len(),
{
    if ms.len() == 0 {
        0
    } else if ms[0].0 == k {
        0
    } else {
        1 + key_at(ms.skip(1), k)
    }
}

/// The member named `k`.
pub open spec fn member_get(ms: Seq<(Seq<char>, Json)>, k: Seq<char>) -> Option<Json> {
    let i = key_at(ms, k);
    if i < ms.len() {
        Some(ms[i].1)
    } else {
        None
    }
}

/// One step down from `j` by the token `t`: a member by name, an item by
/// index; nothing else has parts.
pub open spec fn step(j: Json, t: Seq<char>) -> Option<Json> {
    match j {
        Json::Object(ms) => member_get(ms, t),
        Json::Array(items) => match array_index(t) {
            Some(x) => if x < items.len() {
                Some(items[x as int])
            } else {
                None
            },
            None => None,
        },
        _ => None,
    }
}

/// Where the tokens `ts` lead from `j`.
pub open spec fn walk(j: Json, ts: Seq<Seq<char>>) -> Option<Json>
    decreases ts.len(),
{
    if ts.len() == 0 {
        Some(j)
    } else {
        match step(j, ts[0]) {
            Some(c) => walk(c, ts.skip(1)),
            None => None,
        }
    }
}

/// What the pointer `p` names in `j` (RFC 6901), as a JSON value's
/// `pointer` finds it.
pub open spec fn pointer_spec(j: Json, p: Seq<char>) -> Option<Json> {
    if !is_pointer(p) {
        None
    } else {
        walk(j, pointer_tokens(p))
    }
}

/// `key_at` is the first position whose member is named `k`.
pub proof fn lemma_key_at(ms: Seq<(Seq<char>, Json)>, k: Seq<char>, i: int)
    requires
        0 <= i <= ms.len(),
        forall|j: int| 0 <= j < i ==> #[trigger] ms[j].0 != k,
        i == ms.len() || ms[i].0 == k,
    ensures
        key_at(ms, k) == i,
    decreases ms.len(),
{
    if ms.len() > 0 && ms[0].0 != k {
        let t = ms.skip(1);
        assert forall|j: int| 0 <= j < i - 1 implies #[trigger] t[j].0 != k by {
            assert(t[j] == ms[j + 1]);
        }
        lemma_key_at(t, k, i - 1);
    }
}


/// The characters each vector holds.
pub open spec fn seqs_of(v: Seq<Vec<char>>) -> Seq<Seq<char>> {
    v.map_values(|t: Vec<char>| t@)
}

/// A number only grows as digits are written after it.
pub proof fn lemma_digits_grow(s: Seq<char>, k: int)
    requires
        0 <= k <= s.len(),
    ensures
        digits_value(s.take(k)) <= digits_value(s),
    decreases s.len(),
{
    if k < s.len() {
        lemma_digits_grow(s.drop_last(), k);
        assert(s.drop_last().take(k) =~= s.take(k));
    } else {
        assert(s.take(k) =~= s);
    }
}

/// The pieces of `s` between its `/`s.
fn split_tokens(s: &Vec<char>) -> (r: Vec<Vec<char>>)
    ensures
        seqs_of(r@) == split_slash(s@),
{
    let mut done: Vec<Vec<char>> = Vec::new();
    let mut cur: Vec<char> = Vec::new();
    let mut i: usize = 0;
    assert(s@.take(0) =~= Seq::<char>::empty());
    assert(seqs_of(done@).push(cur@) =~= split_slash(s@.take(0)));
    while i < s.len()
        invariant
            i <= s@.len(),
            seqs_of(done@).push(cur@) == split_slash(s@.take(i as int)),
        decreases s@.len() - i,
    {
        let c = s[i];
        assert(s@.take(i + 1).drop_last() =~= s@.take(i as int));
        assert(s@.take(i + 1).last() == c);
        let ghost before = split_slash(s@.take(i as int));
        if c == '/' {
            let ghost d0 = done@;
            let mut piece: Vec<char> = Vec::new();
            std::mem::swap(&mut piece, &mut cur);
            done.push(piece);
            assert(seqs_of(done@) =~= seqs_of(d0).push(piece@));
            assert(seqs_of(done@).push(cur@) =~= before.push(Seq::empty()));
        } else {
            let ghost c0 = cur@;
            cur.push(c);
            assert(seqs_of(done@).push(cur@) =~= before.update(before.len() - 1, c0.push(c)));
        }
        i = i + 1;
    }
    assert(s@.take(s@.len() as int) =~= s@);
    let ghost d1 = done@;
    done.push(cur);
    assert(seqs_of(done@) =~= seqs_of(d1).push(cur@));
    done
}

/// `t` with each `~` followed by `d` replaced by `c`.
fn replaced_tilde(t: &Vec<char>, d: char, c: char) -> (r: Vec<char>)
    ensures
        r@ == replace_tilde(t@, d, c),
{
    let mut out: Vec<char> = Vec::new();
    let mut i: usize = 0;
    assert(t@.skip(0) =~= t@);
    while i < t.len()
        invariant
            i <= t@.len(),
            replace_tilde(t@, d, c) == out@ + replace_tilde(t@.skip(i as int), d, c),
        decreases t@.len() - i,
    {
        let ghost rest = t@.skip(i as int);
        if i + 1 < t.len() && t[i] == '~' && t[i + 1] == d {
            assert(rest.skip(2) =~= t@.skip(i + 2));
            out.push(c);
            assert(out@ + replace_tilde(t@.skip(i + 2), d, c) =~= replace_tilde(t@, d, c));
            i = i + 2;
        } else {
            assert(rest.skip(1) =~= t@.skip(i + 1));
            out.push(t[i]);
            assert(out@ + replace_tilde(t@.skip(i + 1), d, c) =~= replace_tilde(t@, d, c));
            i = i + 1;
        }
    }
    assert(out@ + replace_tilde(t@.skip(i as int), d, c) =~= out@);
    out
}

/// A reference token, unescaped.
fn unescaped(t: &Vec<char>) -> (r: Vec<char>)
    ensures
        r@ == unescape(t@),
{
    let a = replaced_tilde(t, '1', '/');
    replaced_tilde(&a, '0', '~')
}

/// The unescaped reference tokens of a pointer.
fn tokens_of(p: &Vec<char>) -> (r: Vec<Vec<char>>)
    ensures
        seqs_of(r@) == pointer_tokens(p@),
{
    if p.len() == 0 {
        let r: Vec<Vec<char>> = Vec::new();
        assert(seqs_of(r@) =~= pointer_tokens(p@));
        return r;
    }
    let body = crate::text::slice_of(p, 1, p.len());
    assert(body@ =~= p@.skip(1));
    let raw = split_tokens(&body);
    let mut out: Vec<Vec<char>> = Vec::new();
    let mut i: usize = 0;
    while i < raw.len()
        invariant
            i <= raw@.len(),
            seqs_of(raw@) == split_slash(p@.skip(1)),
            out@.len() == i,
            forall|j: int| 0 <= j < i ==> #[trigger] out@[j]@ == unescape(raw@[j]@),
        decreases raw@.len() - i,
    {
        let u = unescaped(&raw[i]);
        out.push(u);
        i = i + 1;
    }
    assert(seqs_of(out@) =~= pointer_tokens(p@));
    out
}

/// The number the digits of `t` from `from` on write, if they are all
/// digits, at least one, and the number fits a `usize`.
fn digits_from(t: &Vec<char>, from: usize) -> (r: Option<usize>)
    requires
        from <= t@.len(),
    ensures
        r is Some <==> (all_digits(t@.skip(from as int)) && digits_value(t@.skip(from as int))
            <= usize::MAX),
        r is Some ==> r->0 == digits_value(t@.skip(from as int)),
{
    let ghost body = t@.skip(from as int);
    if from == t.len() {
        return None;
    }
    let mut acc: usize = 0;
    let mut i: usize = from;
    assert(body.take(0) =~= Seq::<char>::empty());
    while i < t.len()
        invariant
            from <= i <= t@.len(),
            body == t@.skip(from as int),
            forall|j: int| 0 <= j < i - from ==> is_digit(#[trigger] body[j]),
            acc == digits_value(body.take(i - from)),
        decreases t@.len() - i,
    {
        let c = t[i];
        if !('0' <= c && c <= '9') {
            assert(!is_digit(body[i - from]));
            return None;
        }
        let d = ((c as u32) - ('0' as u32)) as usize;
        assert(body.take(i - from + 1).drop_last() =~= body.take(i - from));
        assert(body.take(i - from + 1).last() == c);
        let grown = match acc.checked_mul(10) {
            Some(m) => m.checked_add(d),
            None => None,
        };
        match grown {
            Some(g) => {
                acc = g;
            },
            None => {
                proof {
                    lemma_digits_grow(body, i - from + 1);
                }
                return None;
            },
        }
        i = i + 1;
    }
    assert(body.take(i - from) =~= body);
    Some(acc)
}

/// The index `t` names in a list when a pointer is read, if it is one and
/// fits a `usize`.
fn index_token(t: &Vec<char>) -> (r: Option<usize>)
    ensures
        r is Some ==> array_index(t@) == Some(r->0 as nat),
        r is None ==> (array_index(t@) is None || array_index(t@)->0 > usize::MAX),
{
    if t.len() == 0 || (t[0] == '0' && t.len() != 1) {
        return None;
    }
    assert(t@.skip(0) =~= t@);
    digits_from(t, 0)
}

/// The index `t` names when a value is set in a list: `usize`'s parse.
fn usize_token(t: &Vec<char>) -> (r: Option<usize>)
    ensures
        r is Some <==> parse_usize(t@) is Some,
        r is Some ==> parse_usize(t@) == Some(r->0 as nat),
{
    if t.len() > 0 && t[0] == '+' {
        digits_from(t, 1)
    } else {
        assert(t@.skip(0) =~= t@);
        digits_from(t, 0)
    }
}

/// Where the member named `k` is, or the count of members when none is.
fn find_member(members: &Vec<(String, JsonValue)>, k: &Vec<char>) -> (r: usize)
    ensures
        r == key_at(member_models(members@), k@),
        r <= members@.len(),
        r < members@.len() ==> members@[r as int].0@ == k@,
{
    proof {
        lemma_member_models(members@);
    }
    let mut i: usize = 0;
    while i < members.len()
        invariant
            i <= members@.len(),
            member_models(members@).len() == members@.len(),
            forall|j: int| 0 <= j < i ==> #[trigger] member_models(members@)[j].0 != k@,
            forall|j: int|
                0 <= j < members@.len() ==> #[trigger] member_models(members@)[j] == (
                    members@[j].0@,
                    members@[j].1.model(),
                ),
        decreases members@.len() - i,
    {
        let name = chars_of(members[i].0.as_str());
        if same_chars(&name, k) {
            proof {
                lemma_key_at(member_models(members@), k@, i as int);
            }
            return i;
        }
        i = i + 1;
    }
    proof {
        lemma_key_at(member_models(members@), k@, i as int);
    }
    i
}


/// One step down from `j` by the token `t`.
fn step_of<'a>(j: &'a JsonValue, t: &Vec<char>) -> (r: Option<&'a JsonValue>)
    ensures
        r is Some <==> step(j.model(), t@) is Some,
        r is Some ==> step(j.model(), t@) == Some(r->0.model()),
{
    match j {
        JsonValue::Object(members) => {
            let k = find_member(members, t);
            proof {
                lemma_member_models(members@);
            }
            if k < members.len() {
                Some(&members[k].1)
            } else {
                None
            }
        },
        JsonValue::Array(items) => {
            proof {
                lemma_models(items@);
                assert(items@.len() == items.len());
            }
            match index_token(t) {
                Some(x) => if x < items.len() {
                    Some(&items[x])
                } else {
                    None
                },
                None => None,
            }
        },
        _ => None,
    }
}

/// Where the tokens `ts` lead from `doc`.
fn walk_to<'a>(doc: &'a JsonValue, ts: &Vec<Vec<char>>) -> (r: Option<&'a JsonValue>)
    ensures
        r is Some <==> walk(doc.model(), seqs_of(ts@)) is Some,
        r is Some ==> walk(doc.model(), seqs_of(ts@)) == Some(r->0.model()),
{
    let ghost all = seqs_of(ts@);
    let mut at: &JsonValue = doc;
    let mut n: usize = 0;
    assert(all.skip(0) =~= all);
    while n < ts.len()
        invariant
            n <= ts@.len(),
            all == seqs_of(ts@),
            walk(doc.model(), all) == walk(at.model(), all.skip(n as int)),
        decreases ts@.len() - n,
    {
        let ghost rest = all.skip(n as int);
        assert(rest[0] == ts@[n as int]@);
        assert(rest.skip(1) =~= all.skip(n + 1));
        match step_of(at, &ts[n]) {
            Some(c) => {
                at = c;
            },
            None => {
                return None;
            },
        }
        n = n + 1;
    }
    assert(all.skip(n as int).len() == 0);
    Some(at)
}

/// What a pointer that does not start with `/` is told, after the pointer
/// quoted.
pub open spec fn not_a_pointer_tail() -> Seq<char> {
    " is not a JSON pointer: one starts with / (as in /environment), or is empty for the whole record"@
}

/// A pointer is empty, for the whole document, or starts with a `/`.
pub fn check_pointer(pointer: &str) -> (res: Result<(), String>)
    ensures
        res is Ok <==> is_pointer(pointer@),
        res is Err ==> res->Err_0@ == debug_quoted(pointer@) + not_a_pointer_tail(),
{
    let p = chars_of(pointer);
    if p.len() == 0 || p[0] == '/' {
        Ok(())
    } else {
        let q = quoted(pointer);
        Err(joined(
            q.as_str(),
            " is not a JSON pointer: one starts with / (as in /environment), or is empty for the whole record",
        ))
    }
}

/// `nothing is at `
pub open spec fn nothing_at() -> Seq<char> {
    "nothing is at "@
}

/// The part of `document` at `pointer` (RFC 6901).
pub fn part(document: &JsonValue, pointer: &str) -> (res: Result<JsonValue, String>)
    ensures
        res is Ok <==> pointer_spec(document.model(), pointer@) is Some,
        res is Ok ==> pointer_spec(document.model(), pointer@) == Some(res->Ok_0.model()),
        res is Err ==> res->Err_0@ == (if is_pointer(pointer@) {
            nothing_at() + pointer@
        } else {
            debug_quoted(pointer@) + not_a_pointer_tail()
        }),
{
    check_pointer(pointer)?;
    let p = chars_of(pointer);
    let ts = tokens_of(&p);
    match walk_to(document, &ts) {
        Some(v) => Ok(v.copy()),
        None => Err(joined("nothing is at ", pointer)),
    }
}


/// Why a value could not be set at a pointer.
#[derive(PartialEq, Eq, Structural, Clone, Copy, Debug)]
pub enum SetFault {
    /// The text is not a JSON pointer.
    NotPointer,
    /// Nothing is at the pointer's parent.
    Missing,
    /// The parent is a list, and the last token is no index.
    NotIndex,
    /// The parent is a list of `.0` items, and the last token is the index
    /// `.1`, past its end.
    PastEnd(usize, usize),
    /// The parent is a single value, with no parts.
    Scalar,
}

/// Whether `a` sorts before `b`, character by character, as strings are
/// ordered: by their UTF-8 bytes, which is the order of the characters'
/// code points.
pub open spec fn str_lt(a: Seq<char>, b: Seq<char>) -> bool
    decreases a.len(),
{
    if a.len() == 0 {
        b.len() > 0
    } else if b.len() == 0 {
        false
    } else if a[0] != b[0] {
        a[0] < b[0]
    } else {
        str_lt(a.skip(1), b.skip(1))
    }
}

/// No string sorts before itself.
pub proof fn lemma_str_lt_irreflexive(a: Seq<char>)
    ensures
        !str_lt(a, a),
    decreases a.len(),
{
    if a.len() > 0 {
        lemma_str_lt_irreflexive(a.skip(1));
    }
}

/// Of two strings, at most one sorts before the other.
pub proof fn lemma_str_lt_asymmetric(a: Seq<char>, b: Seq<char>)
    requires
        str_lt(a, b),
    ensures
        !str_lt(b, a),
    decreases a.len(),
{
    if a.len() > 0 && b.len() > 0 && a[0] == b[0] {
        lemma_str_lt_asymmetric(a.skip(1), b.skip(1));
    }
}

/// Sorting before is transitive.
pub proof fn lemma_str_lt_transitive(a: Seq<char>, b: Seq<char>, c: Seq<char>)
    requires
        str_lt(a, b),
        str_lt(b, c),
    ensures
        str_lt(a, c),
    decreases a.len(),
{
    if a.len() > 0 && b.len() > 0 && c.len() > 0 && a[0] == b[0] && b[0] == c[0] {
        lemma_str_lt_transitive(a.skip(1), b.skip(1), c.skip(1));
    }
}

/// Two strings are equal, or one sorts before the other.
pub proof fn lemma_str_lt_total(a: Seq<char>, b: Seq<char>)
    ensures
        a == b || str_lt(a, b) || str_lt(b, a),
    decreases a.len(),
{
    if a.len() == 0 && b.len() == 0 {
        assert(a =~= b);
    } else if a.len() > 0 && b.len() > 0 && a[0] == b[0] {
        lemma_str_lt_total(a.skip(1), b.skip(1));
        if a.skip(1) == b.skip(1) {
            assert(a =~= seq![a[0]] + a.skip(1));
            assert(b =~= seq![b[0]] + b.skip(1));
        }
    }
}

/// The position of the first member whose name sorts after `k`, or the
/// count of members when none does.
pub open spec fn after_at(ms: Seq<(Seq<char>, Json)>, k: Seq<char>) -> int
    decreases ms.len(),
{
    if ms.len() == 0 {
        0
    } else if str_lt(k, ms[0].0) {
        0
    } else {
        1 + after_at(ms.skip(1), k)
    }
}

/// The members with `v` under the name `k`: in place of the member of that
/// name, or where the name sorts among them, as a sorted map inserts.
pub open spec fn insert_member(ms: Seq<(Seq<char>, Json)>, k: Seq<char>, v: Json) -> Seq<
    (Seq<char>, Json),
> {
    let i = key_at(ms, k);
    if i < ms.len() {
        ms.update(i, (k, v))
    } else {
        ms.insert(after_at(ms, k), (k, v))
    }
}

/// `v` put into the container `j` under the token `t`: a member added or
/// replaced; in a list, an item replaced, or appended by `-` or the index
/// one past the end.
pub open spec fn place(j: Json, t: Seq<char>, v: Json) -> Result<Json, SetFault> {
    match j {
        Json::Object(ms) => Ok(Json::Object(insert_member(ms, t, v))),
        Json::Array(items) => if t == seq!['-'] {
            Ok(Json::Array(items.push(v)))
        } else {
            match parse_usize(t) {
                None => Err(SetFault::NotIndex),
                Some(x) => if x < items.len() {
                    Ok(Json::Array(items.update(x as int, v)))
                } else if x == items.len() {
                    Ok(Json::Array(items.push(v)))
                } else {
                    Err(SetFault::PastEnd(items.len() as usize, x as usize))
                },
            }
        },
        _ => Err(SetFault::Scalar),
    }
}

/// `j` with the part one step down by `t` - which is there - replaced by
/// `c`.
pub open spec fn replace_step(j: Json, t: Seq<char>, c: Json) -> Json {
    match j {
        Json::Object(ms) => Json::Object(ms.update(key_at(ms, t), (ms[key_at(ms, t)].0, c))),
        Json::Array(items) => Json::Array(items.update(array_index(t)->0 as int, c)),
        _ => j,
    }
}

/// `j` with `v` put at the end of the tokens `ts`: every token but the
/// last has to lead somewhere.
pub open spec fn put_spec(j: Json, ts: Seq<Seq<char>>, v: Json) -> Result<Json, SetFault>
    decreases ts.len(),
{
    if ts.len() == 0 {
        Ok(v)
    } else if ts.len() == 1 {
        place(j, ts[0], v)
    } else {
        match step(j, ts[0]) {
            None => Err(SetFault::Missing),
            Some(c) => match put_spec(c, ts.skip(1), v) {
                Ok(c2) => Ok(replace_step(j, ts[0], c2)),
                Err(e) => Err(e),
            },
        }
    }
}

/// `j` with `v` at the pointer `p`: an empty pointer is the whole
/// document.
pub open spec fn set_spec(j: Json, p: Seq<char>, v: Json) -> Result<Json, SetFault> {
    if !is_pointer(p) {
        Err(SetFault::NotPointer)
    } else {
        put_spec(j, pointer_tokens(p), v)
    }
}

/// `after_at` is the first position whose member sorts after `k`.
pub proof fn lemma_after_at(ms: Seq<(Seq<char>, Json)>, k: Seq<char>, i: int)
    requires
        0 <= i <= ms.len(),
        forall|j: int| 0 <= j < i ==> !str_lt(k, #[trigger] ms[j].0),
        i == ms.len() || str_lt(k, ms[i].0),
    ensures
        after_at(ms, k) == i,
    decreases ms.len(),
{
    if ms.len() > 0 && !str_lt(k, ms[0].0) {
        let t = ms.skip(1);
        assert forall|j: int| 0 <= j < i - 1 implies !str_lt(k, #[trigger] t[j].0) by {
            assert(t[j] == ms[j + 1]);
        }
        lemma_after_at(t, k, i - 1);
    }
}

/// Whether `a` sorts before `b`.
pub fn str_less(a: &Vec<char>, b: &Vec<char>) -> (r: bool)
    ensures
        r == str_lt(a@, b@),
{
    let mut i: usize = 0;
    assert(a@.skip(0) =~= a@);
    assert(b@.skip(0) =~= b@);
    while i < a.len() && i < b.len()
        invariant
            i <= a@.len(),
            i <= b@.len(),
            str_lt(a@, b@) == str_lt(a@.skip(i as int), b@.skip(i as int)),
        decreases a@.len() - i,
    {
        if a[i] != b[i] {
            return a[i] < b[i];
        }
        assert(a@.skip(i as int).skip(1) =~= a@.skip(i + 1));
        assert(b@.skip(i as int).skip(1) =~= b@.skip(i + 1));
        i = i + 1;
    }
    i == a.len() && i < b.len()
}

/// Where a member named `k` goes among `members`: before the first whose
/// name sorts after it.
fn find_after(members: &Vec<(String, JsonValue)>, k: &Vec<char>) -> (r: usize)
    ensures
        r == after_at(member_models(members@), k@),
        r <= members@.len(),
{
    proof {
        lemma_member_models(members@);
    }
    let mut i: usize = 0;
    while i < members.len()
        invariant
            i <= members@.len(),
            member_models(members@).len() == members@.len(),
            forall|j: int| 0 <= j < i ==> !str_lt(k@, #[trigger] member_models(members@)[j].0),
            forall|j: int|
                0 <= j < members@.len() ==> #[trigger] member_models(members@)[j] == (
                    members@[j].0@,
                    members@[j].1.model(),
                ),
        decreases members@.len() - i,
    {
        let name = chars_of(members[i].0.as_str());
        if str_less(k, &name) {
            proof {
                lemma_after_at(member_models(members@), k@, i as int);
            }
            return i;
        }
        i = i + 1;
    }
    proof {
        lemma_after_at(member_models(members@), k@, i as int);
    }
    i
}

/// The models of `s` with one member replaced are the models of `s` with
/// that model replaced.
proof fn lemma_member_models_update(s: Seq<(String, JsonValue)>, k: int, m: (String, JsonValue))
    requires
        0 <= k < s.len(),
    ensures
        member_models(s.update(k, m)) == member_models(s).update(k, (m.0@, m.1.model())),
{
    lemma_member_models(s);
    lemma_member_models(s.update(k, m));
    assert(member_models(s.update(k, m)) =~= member_models(s).update(k, (m.0@, m.1.model())));
}

/// The models of `s` with a member inserted are the models of `s` with
/// its model inserted.
proof fn lemma_member_models_insert(s: Seq<(String, JsonValue)>, k: int, m: (String, JsonValue))
    requires
        0 <= k <= s.len(),
    ensures
        member_models(s.insert(k, m)) == member_models(s).insert(k, (m.0@, m.1.model())),
{
    lemma_member_models(s);
    lemma_member_models(s.insert(k, m));
    assert(member_models(s.insert(k, m)) =~= member_models(s).insert(k, (m.0@, m.1.model())));
}

/// The models of `s` with one item replaced are the models of `s` with
/// that model replaced.
proof fn lemma_models_update(s: Seq<JsonValue>, k: int, m: JsonValue)
    requires
        0 <= k < s.len(),
    ensures
        models(s.update(k, m)) == models(s).update(k, m.model()),
{
    lemma_models(s);
    lemma_models(s.update(k, m));
    assert(models(s.update(k, m)) =~= models(s).update(k, m.model()));
}

/// The models of `s` with an item pushed are the models of `s` with its
/// model pushed.
proof fn lemma_models_push(s: Seq<JsonValue>, m: JsonValue)
    ensures
        models(s.push(m)) == models(s).push(m.model()),
{
    assert(s.push(m).drop_last() =~= s);
}

/// `v` put into `node` under the token `t`; `node` back unchanged, and why,
/// when it cannot be.
fn place_in(node: JsonValue, t: &Vec<char>, value: JsonValue) -> (r: (JsonValue, Result<(), SetFault>))
    ensures
        match place(node.model(), t@, value.model()) {
            Ok(j2) => r.1 is Ok && r.0.model() == j2,
            Err(f) => r.1 == Err::<(), SetFault>(f) && r.0.model() == node.model(),
        },
{
    match node {
        JsonValue::Object(mut members) => {
            let k = find_member(&members, t);
            proof {
                lemma_member_models(members@);
            }
            if k < members.len() {
                let ghost before = members@;
                let (name, _old) = members.remove(k);
                members.insert(k, (name, value));
                assert(members@ =~= before.update(k as int, (before[k as int].0, value)));
                proof {
                    lemma_member_models_update(before, k as int, (before[k as int].0, value));
                }
            } else {
                let at = find_after(&members, t);
                let ghost before = members@;
                members.insert(at, (string_of(t), value));
                proof {
                    lemma_member_models_insert(before, at as int, members@[at as int]);
                }
            }
            (JsonValue::Object(members), Ok(()))
        },
        JsonValue::Array(mut items) => {
            proof {
                lemma_models(items@);
            }
            if t.len() == 1 && t[0] == '-' {
                assert(t@ =~= seq!['-']);
                let ghost before = items@;
                items.push(value);
                proof {
                    lemma_models_push(before, value);
                }
                return (JsonValue::Array(items), Ok(()));
            }
            assert(t@ != seq!['-']);
            match usize_token(t) {
                None => (JsonValue::Array(items), Err(SetFault::NotIndex)),
                Some(x) => if x < items.len() {
                    let ghost before = items@;
                    let _old = items.remove(x);
                    items.insert(x, value);
                    assert(items@ =~= before.update(x as int, value));
                    proof {
                        lemma_models_update(before, x as int, value);
                    }
                    (JsonValue::Array(items), Ok(()))
                } else if x == items.len() {
                    let ghost before = items@;
                    items.push(value);
                    proof {
                        lemma_models_push(before, value);
                    }
                    (JsonValue::Array(items), Ok(()))
                } else {
                    let n = items.len();
                    (JsonValue::Array(items), Err(SetFault::PastEnd(n, x)))
                },
            }
        },
        other => (other, Err(SetFault::Scalar)),
    }
}


/// `v` put into `node` at the end of the tokens from `n` on; `node` back
/// unchanged, and why, when it cannot be.
fn put(node: JsonValue, ts: &Vec<Vec<char>>, n: usize, value: JsonValue) -> (r: (
    JsonValue,
    Result<(), SetFault>,
))
    requires
        n < ts@.len(),
    ensures
        match put_spec(node.model(), seqs_of(ts@).skip(n as int), value.model()) {
            Ok(j2) => r.1 is Ok && r.0.model() == j2,
            Err(f) => r.1 == Err::<(), SetFault>(f) && r.0.model() == node.model(),
        },
    decreases ts@.len() - n,
{
    let ghost rest = seqs_of(ts@).skip(n as int);
    assert(rest[0] == ts@[n as int]@);
    assert(rest.skip(1) =~= seqs_of(ts@).skip(n + 1));
    if n == ts.len() - 1 {
        return place_in(node, &ts[n], value);
    }
    match node {
        JsonValue::Object(mut members) => {
            let k = find_member(&members, &ts[n]);
            proof {
                lemma_member_models(members@);
            }
            if k == members.len() {
                return (JsonValue::Object(members), Err(SetFault::Missing));
            }
            let ghost before = members@;
            let (name, child) = members.remove(k);
            let (child2, r) = put(child, ts, n + 1, value);
            members.insert(k, (name, child2));
            assert(members@ =~= before.update(k as int, (before[k as int].0, child2)));
            proof {
                lemma_member_models_update(before, k as int, (before[k as int].0, child2));
                if r is Err {
                    assert(member_models(before).update(k as int, (before[k as int].0@, child2.model()))
                        =~= member_models(before));
                }
            }
            (JsonValue::Object(members), r)
        },
        JsonValue::Array(mut items) => {
            proof {
                lemma_models(items@);
                assert(items@.len() == items.len());
            }
            match index_token(&ts[n]) {
                Some(x) => if x < items.len() {
                    let ghost before = items@;
                    let child = items.remove(x);
                    let (child2, r) = put(child, ts, n + 1, value);
                    items.insert(x, child2);
                    assert(items@ =~= before.update(x as int, child2));
                    proof {
                        lemma_models_update(before, x as int, child2);
                        if r is Err {
                            assert(models(before).update(x as int, child2.model()) =~= models(before));
                        }
                    }
                    (JsonValue::Array(items), r)
                } else {
                    (JsonValue::Array(items), Err(SetFault::Missing))
                },
                None => (JsonValue::Array(items), Err(SetFault::Missing)),
            }
        },
        other => (other, Err(SetFault::Missing)),
    }
}


/// The position of the last `/` in `p`; -1 when there is none.
pub open spec fn last_slash(p: Seq<char>) -> int
    decreases p.len(),
{
    if p.len() == 0 {
        -1
    } else if p.last() == '/' {
        p.len() - 1
    } else {
        last_slash(p.drop_last())
    }
}

/// The pointer to the container a set puts into: all of `p` before its
/// last `/`.
pub open spec fn parent_of(p: Seq<char>) -> Seq<char> {
    p.take(last_slash(p))
}

/// The parent as a refusal names it: `/` for the whole document.
pub open spec fn shown_parent(p: Seq<char>) -> Seq<char> {
    if parent_of(p).len() == 0 {
        seq!['/']
    } else {
        parent_of(p)
    }
}

/// The last token of `p`, unescaped: the name or index a set puts under.
pub open spec fn last_key(p: Seq<char>) -> Seq<char> {
    unescape(p.skip(last_slash(p) + 1))
}

/// What a set at `p` that fails for `f` is told.
pub open spec fn set_message(p: Seq<char>, f: SetFault) -> Seq<char> {
    match f {
        SetFault::NotPointer => debug_quoted(p) + not_a_pointer_tail(),
        SetFault::Missing => nothing_at() + shown_parent(p),
        SetFault::NotIndex => parent_of(p) + " is a list, and "@ + debug_quoted(last_key(p))
            + " is not an index in it"@,
        SetFault::PastEnd(n, x) => parent_of(p) + " holds "@ + decimal_spec(n as nat)
            + " items, so there is no index "@ + decimal_spec(x as nat) + " to set"@,
        SetFault::Scalar => shown_parent(p) + " is a single value, with no parts to set"@,
    }
}

/// Where the last `/` of `p` is.
fn last_slash_of(p: &Vec<char>) -> (r: usize)
    requires
        p@.len() > 0,
        p@[0] == '/',
    ensures
        r == last_slash(p@),
        r < p@.len(),
{
    let mut i: usize = p.len();
    assert(p@.take(i as int) =~= p@);
    while i > 0
        invariant
            i <= p@.len(),
            p@.len() > 0,
            p@[0] == '/',
            last_slash(p@) == last_slash(p@.take(i as int)),
            forall|j: int| i <= j < p@.len() ==> p@[j] != '/',
        decreases i,
    {
        assert(p@.take(i as int).last() == p@[i - 1]);
        assert(p@.take(i as int).drop_last() =~= p@.take(i - 1));
        if p[i - 1] == '/' {
            return i - 1;
        }
        i = i - 1;
    }
    assert(false);
    0
}

/// The refusal a set at `pointer` gets for `f`.
fn set_refusal(pointer: &str, f: SetFault) -> (m: String)
    requires
        f != SetFault::NotPointer,
        pointer@.len() > 0,
        pointer@[0] == '/',
    ensures
        m@ == set_message(pointer@, f),
{
    let p = chars_of(pointer);
    let cut = last_slash_of(&p);
    assert(p@.len() == p.len());
    let parent = string_of(&crate::text::slice_of(&p, 0, cut));
    assert(parent@ =~= parent_of(pointer@));
    let shown = if cut == 0 {
        "/".to_owned()
    } else {
        parent.clone()
    };
    proof {
        reveal_strlit("/");
        assert(shown@ =~= shown_parent(pointer@));
    }
    match f {
        SetFault::Missing => joined("nothing is at ", shown.as_str()),
        SetFault::NotIndex => {
            let raw = crate::text::slice_of(&p, cut + 1, p.len());
            assert(raw@ =~= pointer@.skip(cut + 1));
            let key = string_of(&unescaped(&raw));
            let q = quoted(key.as_str());
            let a = joined(parent.as_str(), " is a list, and ");
            let b = joined(a.as_str(), q.as_str());
            joined(b.as_str(), " is not an index in it")
        },
        SetFault::PastEnd(n, x) => {
            let a = joined(parent.as_str(), " holds ");
            let b = joined(a.as_str(), decimal(n as u64).as_str());
            let c = joined(b.as_str(), " items, so there is no index ");
            let d = joined(c.as_str(), decimal(x as u64).as_str());
            joined(d.as_str(), " to set")
        },
        _ => joined(shown.as_str(), " is a single value, with no parts to set"),
    }
}

/// Put `value` at `pointer` (RFC 6901) in `document`. An empty pointer is
/// the whole document. The last step may name a member an object does not
/// have yet, which adds it, or - as `-`, or the index one past the end -
/// the end of a list, which appends to it; everything before it has to
/// exist. A refusal leaves `document` as it was.
pub fn set_part(document: &mut JsonValue, pointer: &str, value: JsonValue) -> (res: Result<
    (),
    String,
>)
    ensures
        res is Ok <==> set_spec(old(document).model(), pointer@, value.model()) is Ok,
        res is Ok ==> set_spec(old(document).model(), pointer@, value.model()) == Ok::<
            Json,
            SetFault,
        >(final(document).model()),
        res is Err ==> final(document).model() == old(document).model(),
        res is Err ==> res->Err_0@ == set_message(
            pointer@,
            set_spec(old(document).model(), pointer@, value.model())->Err_0,
        ),
{
    check_pointer(pointer)?;
    let p = chars_of(pointer);
    if p.len() == 0 {
        *document = value;
        return Ok(());
    }
    let ts = tokens_of(&p);
    proof {
        lemma_split_nonempty(p@.skip(1));
    }
    let mut doc = JsonValue::Null;
    std::mem::swap(&mut doc, document);
    assert(seqs_of(ts@).skip(0) =~= seqs_of(ts@));
    let (done, r) = put(doc, &ts, 0, value);
    *document = done;
    match r {
        Ok(()) => Ok(()),
        Err(f) => {
            assert(f != SetFault::NotPointer) by {
                lemma_put_fault(doc.model(), seqs_of(ts@), value.model());
            }
            Err(set_refusal(pointer, f))
        },
    }
}

/// There is always at least one piece.
pub proof fn lemma_split_nonempty(s: Seq<char>)
    ensures
        split_slash(s).len() >= 1,
    decreases s.len(),
{
    if s.len() > 0 {
        lemma_split_nonempty(s.drop_last());
    }
}

/// Walking tokens never finds the text not a pointer.
proof fn lemma_put_fault(j: Json, ts: Seq<Seq<char>>, v: Json)
    ensures
        put_spec(j, ts, v) != Err::<Json, SetFault>(SetFault::NotPointer),
    decreases ts.len(),
{
    if ts.len() > 1 {
        match step(j, ts[0]) {
            Some(c) => lemma_put_fault(c, ts.skip(1), v),
            None => {},
        }
    }
}


/// What `key_at` finds: no member before it has the name, and the one at
/// it, if any, has.
pub proof fn lemma_key_at_found(ms: Seq<(Seq<char>, Json)>, k: Seq<char>)
    ensures
        0 <= key_at(ms, k) <= ms.len(),
        key_at(ms, k) < ms.len() ==> ms[key_at(ms, k)].0 == k,
        forall|j: int| 0 <= j < key_at(ms, k) ==> #[trigger] ms[j].0 != k,
    decreases ms.len(),
{
    if ms.len() > 0 && ms[0].0 != k {
        let t = ms.skip(1);
        lemma_key_at_found(t, k);
        assert forall|j: int| 0 <= j < key_at(ms, k) implies #[trigger] ms[j].0 != k by {
            if j > 0 {
                assert(ms[j] == t[j - 1]);
            }
        }
    }
}

/// A member put in under `k` is what the name `k` reads.
proof fn lemma_insert_member_reads(ms: Seq<(Seq<char>, Json)>, k: Seq<char>, v: Json)
    ensures
        member_get(insert_member(ms, k, v), k) == Some(v),
{
    lemma_key_at_found(ms, k);
    let i = key_at(ms, k);
    let out = insert_member(ms, k, v);
    if i < ms.len() {
        assert forall|j: int| 0 <= j < i implies #[trigger] out[j].0 != k by {
            assert(out[j] == ms[j]);
        }
        lemma_key_at(out, k, i);
    } else {
        let a = after_at(ms, k);
        lemma_after_at_bound(ms, k);
        assert forall|j: int| 0 <= j < a implies #[trigger] out[j].0 != k by {
            assert(out[j] == ms[j]);
        }
        lemma_key_at(out, k, a);
    }
}

/// `after_at` is a position among the members, or just past them.
proof fn lemma_after_at_bound(ms: Seq<(Seq<char>, Json)>, k: Seq<char>)
    ensures
        0 <= after_at(ms, k) <= ms.len(),
    decreases ms.len(),
{
    if ms.len() > 0 && !str_lt(k, ms[0].0) {
        lemma_after_at_bound(ms.skip(1), k);
    }
}

/// Replacing the part one step down by `t` leaves that step leading to
/// the replacement.
proof fn lemma_replace_step_reads(j: Json, t: Seq<char>, c: Json)
    requires
        step(j, t) is Some,
    ensures
        step(replace_step(j, t, c), t) == Some(c),
{
    match j {
        Json::Object(ms) => {
            lemma_key_at_found(ms, t);
            let i = key_at(ms, t);
            let out = ms.update(i, (ms[i].0, c));
            assert forall|m: int| 0 <= m < i implies #[trigger] out[m].0 != t by {
                assert(out[m] == ms[m]);
            }
            lemma_key_at(out, t, i);
        },
        _ => {},
    }
}

/// Read-after-write, token by token.
proof fn lemma_put_then_walk(j: Json, ts: Seq<Seq<char>>, v: Json)
    requires
        ts.len() >= 1,
        put_spec(j, ts, v) is Ok,
        walk(j, ts.drop_last()) matches Some(Json::Object(_)) || array_index(ts.last()) is Some,
    ensures
        walk(put_spec(j, ts, v)->Ok_0, ts) == Some(v),
    decreases ts.len(),
{
    let j2 = put_spec(j, ts, v)->Ok_0;
    if ts.len() == 1 {
        assert(ts.drop_last() =~= Seq::<Seq<char>>::empty());
        assert(ts.skip(1) =~= Seq::<Seq<char>>::empty());
        match j {
            Json::Object(ms) => {
                lemma_insert_member_reads(ms, ts[0], v);
            },
            Json::Array(items) => {},
            _ => {},
        }
        assert(step(j2, ts[0]) == Some(v));
        assert(walk(j2, ts) == walk(v, ts.skip(1)));
    } else {
        let c = step(j, ts[0])->0;
        let rest = ts.skip(1);
        assert(ts.drop_last().skip(1) =~= rest.drop_last());
        assert(ts.drop_last()[0] == ts[0]);
        assert(rest.last() == ts.last());
        assert(walk(j, ts.drop_last()) == walk(c, rest.drop_last()));
        lemma_put_then_walk(c, rest, v);
        let c2 = put_spec(c, rest, v)->Ok_0;
        assert(j2 == replace_step(j, ts[0], c2));
        lemma_replace_step_reads(j, ts[0], c2);
        assert(walk(j2, ts) == walk(c2, rest));
    }
}

/// A value set at a pointer is what the pointer reads back: the whole
/// document for the empty pointer, and otherwise the member named, or the
/// list item at the index named. (A set that appends to a list - by `-`,
/// or by an index written with a `+` or a leading zero - puts the value
/// under its plain index, which is where it reads back.)
pub proof fn lemma_read_back_what_was_set(j: Json, p: Seq<char>, v: Json)
    requires
        set_spec(j, p, v) is Ok,
        p.len() > 0 ==> (walk(j, pointer_tokens(p).drop_last()) matches Some(Json::Object(_))
            || array_index(pointer_tokens(p).last()) is Some),
    ensures
        pointer_spec(set_spec(j, p, v)->Ok_0, p) == Some(v),
{
    if p.len() > 0 {
        lemma_split_nonempty(p.skip(1));
        lemma_put_then_walk(j, pointer_tokens(p), v);
    }
}


/// At most this many adjusted places are named in one answer.
pub const MAX_ADJUSTMENTS: usize = 16usize;

/// Whether the bits are those of a zero, positive or negative.
pub open spec fn zero_bits(x: u64) -> bool {
    x == 0 || x == 0x8000_0000_0000_0000u64
}

/// Whether two numbers are equal as JSON compares them: integers by
/// value, floats as floats, so the two zeros are one.
pub open spec fn num_eq(a: JsonNumber, b: JsonNumber) -> bool {
    match (a, b) {
        (JsonNumber::Float(x), JsonNumber::Float(y)) => x == y || (zero_bits(x) && zero_bits(y)),
        _ => a == b,
    }
}

/// Whether two values are equal as JSON compares them: lists item by
/// item, objects member by member in their order - the order of their
/// names, as a map keeps them.
pub open spec fn json_eq(a: Json, b: Json) -> bool
    decreases a, 0nat,
{
    match (a, b) {
        (Json::Null, Json::Null) => true,
        (Json::Bool(x), Json::Bool(y)) => x == y,
        (Json::Number(x), Json::Number(y)) => num_eq(x, y),
        (Json::Str(x), Json::Str(y)) => x == y,
        (Json::Array(xs), Json::Array(ys)) => items_eq(xs, ys),
        (Json::Object(xs), Json::Object(ys)) => members_eq(xs, ys),
        _ => false,
    }
}

/// Whether two lists are equal item by item.
pub open spec fn items_eq(xs: Seq<Json>, ys: Seq<Json>) -> bool
    decreases xs, 1nat,
{
    if xs.len() != ys.len() {
        false
    } else if xs.len() == 0 {
        true
    } else {
        items_eq(xs.drop_last(), ys.drop_last()) && json_eq(xs.last(), ys.last())
    }
}

/// Whether two member lists are equal member by member.
pub open spec fn members_eq(xs: Seq<(Seq<char>, Json)>, ys: Seq<(Seq<char>, Json)>) -> bool
    decreases xs, 1nat,
{
    if xs.len() != ys.len() {
        false
    } else if xs.len() == 0 {
        true
    } else {
        members_eq(xs.drop_last(), ys.drop_last()) && xs.last().0 == ys.last().0 && json_eq(
            xs.last().1,
            ys.last().1,
        )
    }
}

/// A name as a pointer token: `~` written `~0`, `/` written `~1`.
pub open spec fn escape(k: Seq<char>) -> Seq<char>
    decreases k.len(),
{
    if k.len() == 0 {
        k
    } else {
        let c = k.last();
        escape(k.drop_last()) + if c == '~' {
            seq!['~', '0']
        } else if c == '/' {
            seq!['~', '1']
        } else {
            seq![c]
        }
    }
}

/// The pointer to the member `k` under `at`.
pub open spec fn member_path(at: Seq<char>, k: Seq<char>) -> Seq<char> {
    at + seq!['/'] + escape(k)
}

/// The pointer to the item `i` under `at`.
pub open spec fn item_path(at: Seq<char>, i: nat) -> Seq<char> {
    at + seq!['/'] + decimal_spec(i)
}

/// Where `kept` differs from `sent`, both under the pointer `at`: inside
/// two objects member by member and two lists of one length item by item;
/// anywhere else the place itself, when the two are not equal.
pub open spec fn diffs(sent: Json, kept: Json, at: Seq<char>) -> Seq<Seq<char>>
    decreases sent, 0nat, 0nat,
{
    match (sent, kept) {
        (Json::Object(sm), Json::Object(km)) => member_diffs(sm, km, at),
        (Json::Array(sa), Json::Array(ka)) => if sa.len() == ka.len() {
            item_diffs(sa, ka, at, 0)
        } else {
            seq![at]
        },
        _ => if json_eq(sent, kept) {
            Seq::empty()
        } else {
            seq![at]
        },
    }
}

/// Where two objects' members differ, the names taken in order: a name
/// both have is compared inside, a name only one has is a place itself.
/// The members are in the order of their names, as a map keeps them.
pub open spec fn member_diffs(
    sm: Seq<(Seq<char>, Json)>,
    km: Seq<(Seq<char>, Json)>,
    at: Seq<char>,
) -> Seq<Seq<char>>
    decreases sm, 1nat, km.len(),
{
    if sm.len() == 0 {
        if km.len() == 0 {
            Seq::empty()
        } else {
            seq![member_path(at, km[0].0)] + member_diffs(sm, km.subrange(1, km.len() as int), at)
        }
    } else if km.len() == 0 {
        seq![member_path(at, sm[0].0)] + member_diffs(
            sm.subrange(1, sm.len() as int),
            km,
            at,
        )
    } else if sm[0].0 == km[0].0 {
        proof {
            assert(decreases_to!(sm => sm[0]));
        }
        diffs(sm[0].1, km[0].1, member_path(at, sm[0].0)) + member_diffs(
            sm.subrange(1, sm.len() as int),
            km.subrange(1, km.len() as int),
            at,
        )
    } else if str_lt(sm[0].0, km[0].0) {
        seq![member_path(at, sm[0].0)] + member_diffs(
            sm.subrange(1, sm.len() as int),
            km,
            at,
        )
    } else {
        seq![member_path(at, km[0].0)] + member_diffs(sm, km.subrange(1, km.len() as int), at)
    }
}

/// Where two lists of one length differ, from item `i` on.
pub open spec fn item_diffs(sa: Seq<Json>, ka: Seq<Json>, at: Seq<char>, i: nat) -> Seq<
    Seq<char>,
>
    decreases sa, 1nat, sa.len() - i,
{
    if i >= sa.len() || i >= ka.len() {
        Seq::empty()
    } else {
        diffs(sa[i as int], ka[i as int], item_path(at, i)) + item_diffs(sa, ka, at, i + 1)
    }
}

/// At most [`MAX_ADJUSTMENTS`] of `s`, from the start.
pub open spec fn capped(s: Seq<Seq<char>>) -> Seq<Seq<char>> {
    if s.len() <= MAX_ADJUSTMENTS {
        s
    } else {
        s.take(MAX_ADJUSTMENTS as int)
    }
}

/// Where the world kept something other than what was sent, under
/// `pointer`: each value changed, added or taken away - or `pointer`
/// itself, when only one of the two is there - at most
/// [`MAX_ADJUSTMENTS`] of them.
pub open spec fn adjustments_spec(pointer: Seq<char>, sent: Option<Json>, kept: Option<Json>) -> Seq<
    Seq<char>,
> {
    match (sent, kept) {
        (Some(a), Some(b)) => capped(diffs(a, b, pointer)),
        (None, None) => Seq::empty(),
        _ => seq![pointer],
    }
}


/// Whether two numbers are equal as JSON compares them.
fn num_equal(a: JsonNumber, b: JsonNumber) -> (r: bool)
    ensures
        r == num_eq(a, b),
{
    match (a, b) {
        (JsonNumber::Float(x), JsonNumber::Float(y)) => x == y || ((x == 0 || x
            == 0x8000_0000_0000_0000u64) && (y == 0 || y == 0x8000_0000_0000_0000u64)),
        (JsonNumber::PosInt(x), JsonNumber::PosInt(y)) => x == y,
        (JsonNumber::NegInt(x), JsonNumber::NegInt(y)) => x == y,
        _ => false,
    }
}

/// Whether two values are equal as JSON compares them.
pub fn json_equal(a: &JsonValue, b: &JsonValue) -> (r: bool)
    ensures
        r == json_eq(a.model(), b.model()),
    decreases a,
{
    match (a, b) {
        (JsonValue::Null, JsonValue::Null) => true,
        (JsonValue::Bool(x), JsonValue::Bool(y)) => *x == *y,
        (JsonValue::Number(x), JsonValue::Number(y)) => num_equal(*x, *y),
        (JsonValue::String(x), JsonValue::String(y)) => {
            let xs = chars_of(x.as_str());
            let ys = chars_of(y.as_str());
            same_chars(&xs, &ys)
        },
        (JsonValue::Array(xs), JsonValue::Array(ys)) => {
            proof {
                lemma_models(xs@);
                lemma_models(ys@);
            }
            if xs.len() != ys.len() {
                return false;
            }
            let ghost mx = models(xs@);
            let ghost my = models(ys@);
            let mut i: usize = 0;
            assert(mx.take(0) =~= Seq::<Json>::empty());
            assert(my.take(0) =~= Seq::<Json>::empty());
            while i < xs.len()
                invariant
                    i <= xs@.len(),
                    xs@.len() == ys@.len(),
                    *a == JsonValue::Array(*xs),
                    *b == JsonValue::Array(*ys),
                    mx == models(xs@),
                    my == models(ys@),
                    mx.len() == xs@.len(),
                    my.len() == ys@.len(),
                    forall|k: int| 0 <= k < xs@.len() ==> #[trigger] mx[k] == xs@[k].model(),
                    forall|k: int| 0 <= k < ys@.len() ==> #[trigger] my[k] == ys@[k].model(),
                    items_eq(mx.take(i as int), my.take(i as int)),
                decreases xs@.len() - i,
            {
                proof {
                    assert(decreases_to!(xs@ => xs@[i as int]));
                    assert(decreases_to!(*xs => xs@));
                    assert(decreases_to!(*a => a->Array_0));
                }
                assert(mx.take(i + 1).drop_last() =~= mx.take(i as int));
                assert(my.take(i + 1).drop_last() =~= my.take(i as int));
                if !json_equal(&xs[i], &ys[i]) {
                    assert(!items_eq(mx, my)) by {
                        if items_eq(mx, my) {
                            lemma_items_eq_prefix(mx, my, i + 1);
                            assert(mx.take(i + 1).last() == mx[i as int]);
                            assert(my.take(i + 1).last() == my[i as int]);
                        }
                    }
                    return false;
                }
                i = i + 1;
            }
            assert(mx.take(i as int) =~= mx);
            assert(my.take(i as int) =~= my);
            true
        },
        (JsonValue::Object(xs), JsonValue::Object(ys)) => {
            proof {
                lemma_member_models(xs@);
                lemma_member_models(ys@);
            }
            if xs.len() != ys.len() {
                return false;
            }
            let ghost mx = member_models(xs@);
            let ghost my = member_models(ys@);
            let mut i: usize = 0;
            assert(mx.take(0) =~= Seq::<(Seq<char>, Json)>::empty());
            assert(my.take(0) =~= Seq::<(Seq<char>, Json)>::empty());
            while i < xs.len()
                invariant
                    i <= xs@.len(),
                    xs@.len() == ys@.len(),
                    *a == JsonValue::Object(*xs),
                    *b == JsonValue::Object(*ys),
                    mx == member_models(xs@),
                    my == member_models(ys@),
                    mx.len() == xs@.len(),
                    my.len() == ys@.len(),
                    forall|k: int|
                        0 <= k < xs@.len() ==> #[trigger] mx[k] == (xs@[k].0@, xs@[k].1.model()),
                    forall|k: int|
                        0 <= k < ys@.len() ==> #[trigger] my[k] == (ys@[k].0@, ys@[k].1.model()),
                    members_eq(mx.take(i as int), my.take(i as int)),
                decreases xs@.len() - i,
            {
                proof {
                    assert(decreases_to!(xs@ => xs@[i as int]));
                    assert(decreases_to!(xs@[i as int] => xs@[i as int].1));
                    assert(decreases_to!(*xs => xs@));
                    assert(decreases_to!(*a => a->Object_0));
                }
                assert(mx.take(i + 1).drop_last() =~= mx.take(i as int));
                assert(my.take(i + 1).drop_last() =~= my.take(i as int));
                let kx = chars_of(xs[i].0.as_str());
                let ky = chars_of(ys[i].0.as_str());
                if !same_chars(&kx, &ky) || !json_equal(&xs[i].1, &ys[i].1) {
                    assert(!members_eq(mx, my)) by {
                        if members_eq(mx, my) {
                            lemma_members_eq_prefix(mx, my, i + 1);
                            assert(mx.take(i + 1).last() == mx[i as int]);
                            assert(my.take(i + 1).last() == my[i as int]);
                        }
                    }
                    return false;
                }
                i = i + 1;
            }
            assert(mx.take(i as int) =~= mx);
            assert(my.take(i as int) =~= my);
            true
        },
        _ => false,
    }
}

/// Equal lists are equal on every prefix.
proof fn lemma_items_eq_prefix(xs: Seq<Json>, ys: Seq<Json>, n: int)
    requires
        0 <= n <= xs.len(),
        items_eq(xs, ys),
    ensures
        items_eq(xs.take(n), ys.take(n)),
    decreases xs.len(),
{
    if n == xs.len() {
        assert(xs.take(n) =~= xs);
        assert(ys.take(n) =~= ys);
    } else {
        lemma_items_eq_prefix(xs.drop_last(), ys.drop_last(), n);
        assert(xs.drop_last().take(n) =~= xs.take(n));
        assert(ys.drop_last().take(n) =~= ys.take(n));
    }
}

/// Equal member lists are equal on every prefix.
proof fn lemma_members_eq_prefix(xs: Seq<(Seq<char>, Json)>, ys: Seq<(Seq<char>, Json)>, n: int)
    requires
        0 <= n <= xs.len(),
        members_eq(xs, ys),
    ensures
        members_eq(xs.take(n), ys.take(n)),
    decreases xs.len(),
{
    if n == xs.len() {
        assert(xs.take(n) =~= xs);
        assert(ys.take(n) =~= ys);
    } else {
        lemma_members_eq_prefix(xs.drop_last(), ys.drop_last(), n);
        assert(xs.drop_last().take(n) =~= xs.take(n));
        assert(ys.drop_last().take(n) =~= ys.take(n));
    }
}


/// The characters of each string.
pub open spec fn strs_of(v: Seq<String>) -> Seq<Seq<char>> {
    v.map_values(|t: String| t@)
}

/// The model of an optional value.
pub open spec fn opt_model(o: Option<&JsonValue>) -> Option<Json> {
    match o {
        Some(v) => Some(v.model()),
        None => None,
    }
}

/// `b` added to the end of `a`.
fn append_chars(a: &mut Vec<char>, b: &Vec<char>)
    ensures
        final(a)@ == old(a)@ + b@,
{
    let ghost start = a@;
    let mut i: usize = 0;
    while i < b.len()
        invariant
            i <= b@.len(),
            a@ == start + b@.take(i as int),
        decreases b@.len() - i,
    {
        a.push(b[i]);
        i = i + 1;
        assert(a@ =~= start + b@.take(i as int));
    }
    assert(b@.take(i as int) =~= b@);
}

/// A name written as a pointer token.
fn escaped(k: &Vec<char>) -> (r: Vec<char>)
    ensures
        r@ == escape(k@),
{
    let mut out: Vec<char> = Vec::new();
    let mut i: usize = 0;
    assert(k@.take(0) =~= Seq::<char>::empty());
    while i < k.len()
        invariant
            i <= k@.len(),
            out@ == escape(k@.take(i as int)),
        decreases k@.len() - i,
    {
        let c = k[i];
        assert(k@.take(i + 1).drop_last() =~= k@.take(i as int));
        assert(k@.take(i + 1).last() == c);
        let ghost before = out@;
        if c == '~' {
            out.push('~');
            out.push('0');
            assert(out@ =~= before + seq!['~', '0']);
        } else if c == '/' {
            out.push('~');
            out.push('1');
            assert(out@ =~= before + seq!['~', '1']);
        } else {
            out.push(c);
            assert(out@ =~= before + seq![c]);
        }
        i = i + 1;
    }
    assert(k@.take(i as int) =~= k@);
    out
}

/// The pointer to the member named `k` under `at`.
fn member_path_of(at: &Vec<char>, k: &Vec<char>) -> (r: Vec<char>)
    ensures
        r@ == member_path(at@, k@),
{
    let mut r = crate::text::slice_of(at, 0, at.len());
    assert(r@ =~= at@);
    r.push('/');
    let e = escaped(k);
    append_chars(&mut r, &e);
    r
}

/// The pointer to the item `i` under `at`.
fn item_path_of(at: &Vec<char>, i: usize) -> (r: Vec<char>)
    ensures
        r@ == item_path(at@, i as nat),
{
    let mut r = crate::text::slice_of(at, 0, at.len());
    assert(r@ =~= at@);
    r.push('/');
    let d = decimal(i as u64);
    let ds = chars_of(d.as_str());
    append_chars(&mut r, &ds);
    r
}

/// Capping twice is capping once.
proof fn lemma_capped(x: Seq<Seq<char>>, c: Seq<Seq<char>>)
    ensures
        capped(capped(x) + c) == capped(x + c),
{
    if x.len() > MAX_ADJUSTMENTS {
        assert((x.take(MAX_ADJUSTMENTS as int) + c).take(MAX_ADJUSTMENTS as int) =~= (x + c).take(
            MAX_ADJUSTMENTS as int,
        ));
    }
}

/// Name `path`, if there is room.
fn push_capped(out: &mut Vec<Vec<char>>, path: Vec<char>)
    requires
        old(out)@.len() <= MAX_ADJUSTMENTS,
    ensures
        seqs_of(final(out)@) == capped(seqs_of(old(out)@) + seq![path@]),
        final(out)@.len() <= MAX_ADJUSTMENTS,
{
    let ghost before = seqs_of(out@);
    if out.len() < MAX_ADJUSTMENTS {
        let ghost p = path@;
        out.push(path);
        assert(seqs_of(out@) =~= before + seq![p]);
    } else {
        assert((before + seq![path@]).take(MAX_ADJUSTMENTS as int) =~= before);
    }
}

/// Name where `kept` differs from `sent` under `at`, after what `out`
/// names already, at most [`MAX_ADJUSTMENTS`] in all.
fn differences(sent: &JsonValue, kept: &JsonValue, at: &Vec<char>, out: &mut Vec<Vec<char>>)
    requires
        old(out)@.len() <= MAX_ADJUSTMENTS,
    ensures
        seqs_of(final(out)@) == capped(seqs_of(old(out)@) + diffs(sent.model(), kept.model(), at@)),
        final(out)@.len() <= MAX_ADJUSTMENTS,
    decreases sent,
{
    let ghost o0 = seqs_of(out@);
    let ghost whole = diffs(sent.model(), kept.model(), at@);
    if out.len() >= MAX_ADJUSTMENTS {
        assert((o0 + whole).take(MAX_ADJUSTMENTS as int) =~= o0);
        return;
    }
    match (sent, kept) {
        (JsonValue::Object(sm), JsonValue::Object(km)) => {
            proof {
                lemma_member_models(sm@);
                lemma_member_models(km@);
            }
            let ghost msm = member_models(sm@);
            let ghost mkm = member_models(km@);
            let mut i: usize = 0;
            let mut j: usize = 0;
            assert(msm.subrange(0, msm.len() as int) =~= msm);
            assert(mkm.subrange(0, mkm.len() as int) =~= mkm);
            while i < sm.len() || j < km.len()
                invariant
                    i <= sm@.len(),
                    j <= km@.len(),
                    *sent == JsonValue::Object(*sm),
                    whole == member_diffs(msm, mkm, at@),
                    msm == member_models(sm@),
                    mkm == member_models(km@),
                    msm.len() == sm@.len(),
                    mkm.len() == km@.len(),
                    forall|k: int|
                        0 <= k < sm@.len() ==> #[trigger] msm[k] == (sm@[k].0@, sm@[k].1.model()),
                    forall|k: int|
                        0 <= k < km@.len() ==> #[trigger] mkm[k] == (km@[k].0@, km@[k].1.model()),
                    out@.len() <= MAX_ADJUSTMENTS,
                    capped(
                        seqs_of(out@) + member_diffs(
                            msm.subrange(i as int, msm.len() as int),
                            mkm.subrange(j as int, mkm.len() as int),
                            at@,
                        ),
                    ) == capped(o0 + whole),
                decreases (sm@.len() - i) + (km@.len() - j),
            {
                let ghost a = msm.subrange(i as int, msm.len() as int);
                let ghost b = mkm.subrange(j as int, mkm.len() as int);
                let ghost cur = seqs_of(out@);
                if i == sm.len() {
                    let kk = chars_of(km[j].0.as_str());
                    let path = member_path_of(at, &kk);
                    let ghost x = seq![path@];
                    assert(b.subrange(1, b.len() as int) =~= mkm.subrange(j + 1, mkm.len() as int));
                    let ghost next = member_diffs(a, mkm.subrange(j + 1, mkm.len() as int), at@);
                    assert(member_diffs(a, b, at@) == x + next);
                    push_capped(out, path);
                    proof {
                        lemma_capped(cur + x, next);
                        assert(cur + x + next =~= cur + (x + next));
                    }
                    j = j + 1;
                } else if j == km.len() {
                    let ks = chars_of(sm[i].0.as_str());
                    let path = member_path_of(at, &ks);
                    let ghost x = seq![path@];
                    assert(a.subrange(1, a.len() as int) =~= msm.subrange(i + 1, msm.len() as int));
                    let ghost next = member_diffs(msm.subrange(i + 1, msm.len() as int), b, at@);
                    assert(member_diffs(a, b, at@) == x + next);
                    push_capped(out, path);
                    proof {
                        lemma_capped(cur + x, next);
                        assert(cur + x + next =~= cur + (x + next));
                    }
                    i = i + 1;
                } else {
                    let ks = chars_of(sm[i].0.as_str());
                    let kk = chars_of(km[j].0.as_str());
                    assert(a[0] == msm[i as int]);
                    assert(b[0] == mkm[j as int]);
                    if same_chars(&ks, &kk) {
                        let path = member_path_of(at, &ks);
                        assert(a.subrange(1, a.len() as int) =~= msm.subrange(
                            i + 1,
                            msm.len() as int,
                        ));
                        assert(b.subrange(1, b.len() as int) =~= mkm.subrange(
                            j + 1,
                            mkm.len() as int,
                        ));
                        let ghost x = diffs(msm[i as int].1, mkm[j as int].1, path@);
                        let ghost next = member_diffs(
                            msm.subrange(i + 1, msm.len() as int),
                            mkm.subrange(j + 1, mkm.len() as int),
                            at@,
                        );
                        assert(member_diffs(a, b, at@) == x + next);
                        proof {
                            assert(decreases_to!(sm@ => sm@[i as int]));
                            assert(decreases_to!(sm@[i as int] => sm@[i as int].1));
                            assert(decreases_to!(*sm => sm@));
                            assert(decreases_to!(*sent => sent->Object_0));
                        }
                        differences(&sm[i].1, &km[j].1, &path, out);
                        proof {
                            lemma_capped(cur + x, next);
                            assert(cur + x + next =~= cur + (x + next));
                        }
                        i = i + 1;
                        j = j + 1;
                    } else if str_less(&ks, &kk) {
                        let path = member_path_of(at, &ks);
                        let ghost x = seq![path@];
                        assert(a.subrange(1, a.len() as int) =~= msm.subrange(
                            i + 1,
                            msm.len() as int,
                        ));
                        let ghost next = member_diffs(
                            msm.subrange(i + 1, msm.len() as int),
                            b,
                            at@,
                        );
                        assert(member_diffs(a, b, at@) == x + next);
                        push_capped(out, path);
                        proof {
                            lemma_capped(cur + x, next);
                            assert(cur + x + next =~= cur + (x + next));
                        }
                        i = i + 1;
                    } else {
                        let path = member_path_of(at, &kk);
                        let ghost x = seq![path@];
                        assert(b.subrange(1, b.len() as int) =~= mkm.subrange(
                            j + 1,
                            mkm.len() as int,
                        ));
                        let ghost next = member_diffs(
                            a,
                            mkm.subrange(j + 1, mkm.len() as int),
                            at@,
                        );
                        assert(member_diffs(a, b, at@) == x + next);
                        push_capped(out, path);
                        proof {
                            lemma_capped(cur + x, next);
                            assert(cur + x + next =~= cur + (x + next));
                        }
                        j = j + 1;
                    }
                }
            }
            proof {
                let a = msm.subrange(i as int, msm.len() as int);
                let b = mkm.subrange(j as int, mkm.len() as int);
                assert(a.len() == 0 && b.len() == 0);
                assert(seqs_of(out@) + member_diffs(a, b, at@) =~= seqs_of(out@));
            }
        },
        (JsonValue::Array(sa), JsonValue::Array(ka)) => {
            proof {
                lemma_models(sa@);
                lemma_models(ka@);
            }
            if sa.len() != ka.len() {
                let mut c = crate::text::slice_of(at, 0, at.len());
                assert(c@ =~= at@);
                push_capped(out, c);
                return;
            }
            let ghost ma = models(sa@);
            let ghost mk = models(ka@);
            let mut i: usize = 0;
            while i < sa.len()
                invariant
                    i <= sa@.len(),
                    sa@.len() == ka@.len(),
                    *sent == JsonValue::Array(*sa),
                    whole == item_diffs(ma, mk, at@, 0),
                    ma == models(sa@),
                    mk == models(ka@),
                    ma.len() == sa@.len(),
                    mk.len() == ka@.len(),
                    forall|k: int| 0 <= k < sa@.len() ==> #[trigger] ma[k] == sa@[k].model(),
                    forall|k: int| 0 <= k < ka@.len() ==> #[trigger] mk[k] == ka@[k].model(),
                    out@.len() <= MAX_ADJUSTMENTS,
                    capped(seqs_of(out@) + item_diffs(ma, mk, at@, i as nat)) == capped(o0 + whole),
                decreases sa@.len() - i,
            {
                let ghost cur = seqs_of(out@);
                let path = item_path_of(at, i);
                let ghost x = diffs(ma[i as int], mk[i as int], path@);
                let ghost next = item_diffs(ma, mk, at@, (i + 1) as nat);
                assert(item_diffs(ma, mk, at@, i as nat) == x + next);
                proof {
                    assert(decreases_to!(sa@ => sa@[i as int]));
                    assert(decreases_to!(*sa => sa@));
                    assert(decreases_to!(*sent => sent->Array_0));
                }
                differences(&sa[i], &ka[i], &path, out);
                proof {
                    lemma_capped(cur + x, next);
                    assert(cur + x + next =~= cur + (x + next));
                }
                i = i + 1;
            }
            assert(seqs_of(out@) + item_diffs(ma, mk, at@, i as nat) =~= seqs_of(out@));
        },
        _ => {
            if !json_equal(sent, kept) {
                let c = crate::text::slice_of(at, 0, at.len());
                assert(c@ =~= at@);
                push_capped(out, c);
            } else {
                assert(o0 + whole =~= o0);
            }
        },
    }
}


/// Where the world kept something other than what was sent: the pointer,
/// under `pointer`, of each value it changed, added or took away - or
/// `pointer` itself when only one of the two is there - at most
/// [`MAX_ADJUSTMENTS`] of them. `sent` is what was sent as the record
/// writes it, so a value the record leaves out as the default is no
/// adjustment.
pub fn adjustments(pointer: &str, sent: Option<&JsonValue>, kept: Option<&JsonValue>) -> (at: Vec<
    String,
>)
    ensures
        strs_of(at@) == adjustments_spec(pointer@, opt_model(sent), opt_model(kept)),
        at@.len() <= MAX_ADJUSTMENTS,
{
    let mut out: Vec<Vec<char>> = Vec::new();
    let p = chars_of(pointer);
    match (sent, kept) {
        (Some(a), Some(b)) => {
            differences(a, b, &p, &mut out);
            assert(seqs_of(Seq::<Vec<char>>::empty()) + diffs(a.model(), b.model(), p@) =~= diffs(
                a.model(),
                b.model(),
                p@,
            ));
        },
        (None, None) => {},
        _ => {
            out.push(p);
        },
    }
    let ghost want = seqs_of(out@);
    assert(want == adjustments_spec(pointer@, opt_model(sent), opt_model(kept)));
    let mut named: Vec<String> = Vec::new();
    let mut i: usize = 0;
    while i < out.len()
        invariant
            i <= out@.len(),
            want == seqs_of(out@),
            named@.len() == i,
            forall|k: int| 0 <= k < i ==> #[trigger] named@[k]@ == want[k],
        decreases out@.len() - i,
    {
        named.push(string_of(&out[i]));
        i = i + 1;
    }
    assert(strs_of(named@) =~= want);
    named
}

/// A value is equal to itself.
pub proof fn lemma_json_eq_refl(j: Json)
    ensures
        json_eq(j, j),
    decreases j,
{
    match j {
        Json::Array(xs) => lemma_items_eq_refl(xs),
        Json::Object(ms) => lemma_members_eq_refl(ms),
        _ => {},
    }
}

/// A list is equal to itself.
pub proof fn lemma_items_eq_refl(xs: Seq<Json>)
    ensures
        items_eq(xs, xs),
    decreases xs,
{
    if xs.len() > 0 {
        lemma_items_eq_refl(xs.drop_last());
        lemma_json_eq_refl(xs.last());
    }
}

/// A member list is equal to itself.
pub proof fn lemma_members_eq_refl(ms: Seq<(Seq<char>, Json)>)
    ensures
        members_eq(ms, ms),
    decreases ms,
{
    if ms.len() > 0 {
        lemma_members_eq_refl(ms.drop_last());
        lemma_json_eq_refl(ms.last().1);
    }
}

/// A value with no floating-point number anywhere in it: where JSON's
/// equality is plain equality.
pub open spec fn float_free(j: Json) -> bool
    decreases j, 0nat,
{
    match j {
        Json::Number(n) => !(n is Float),
        Json::Array(xs) => items_float_free(xs),
        Json::Object(ms) => members_float_free(ms),
        _ => true,
    }
}

/// A list with no floating-point number anywhere in it.
pub open spec fn items_float_free(xs: Seq<Json>) -> bool
    decreases xs, 1nat,
{
    if xs.len() == 0 {
        true
    } else {
        items_float_free(xs.drop_last()) && float_free(xs.last())
    }
}

/// Members with no floating-point number anywhere in them.
pub open spec fn members_float_free(ms: Seq<(Seq<char>, Json)>) -> bool
    decreases ms, 1nat,
{
    if ms.len() == 0 {
        true
    } else {
        members_float_free(ms.drop_last()) && float_free(ms.last().1)
    }
}

/// JSON's equality is equality of the values themselves: two strings are
/// equal only when their characters are, two integers only when they are
/// the same, lists and objects only when everything in them is. Only a
/// float's zero compares equal to its negative.
pub proof fn lemma_json_eq_is_equality(a: Json, b: Json)
    requires
        float_free(a),
        float_free(b),
    ensures
        json_eq(a, b) <==> a == b,
    decreases a, 0nat,
{
    if a == b {
        lemma_json_eq_refl(a);
    } else {
        match (a, b) {
            (Json::Array(xs), Json::Array(ys)) => {
                if items_eq(xs, ys) {
                    lemma_items_eq_is_equality(xs, ys);
                }
            },
            (Json::Object(xs), Json::Object(ys)) => {
                if members_eq(xs, ys) {
                    lemma_members_eq_is_equality(xs, ys);
                }
            },
            _ => {},
        }
    }
}

/// Two floats compare equal only when their bits are the same, or when
/// both are zero, one of either sign.
pub proof fn lemma_floats_equal_by_bits(x: u64, y: u64)
    ensures
        json_eq(Json::Number(JsonNumber::Float(x)), Json::Number(JsonNumber::Float(y))) <==> (x
            == y || ((x == 0 || x == 0x8000_0000_0000_0000u64) && (y == 0 || y
            == 0x8000_0000_0000_0000u64))),
{
}

/// Lists equal item by item, with no float in them, are the same list.
proof fn lemma_items_eq_is_equality(xs: Seq<Json>, ys: Seq<Json>)
    requires
        items_float_free(xs),
        items_float_free(ys),
        items_eq(xs, ys),
    ensures
        xs == ys,
    decreases xs, 1nat,
{
    if xs.len() > 0 {
        let (fx, fy) = (xs.drop_last(), ys.drop_last());
        lemma_items_eq_is_equality(fx, fy);
        lemma_json_eq_is_equality(xs.last(), ys.last());
        assert(xs =~= fx.push(xs.last()));
        assert(ys =~= fy.push(ys.last()));
    } else {
        assert(xs =~= ys);
    }
}

/// Member lists equal member by member, with no float in them, are the
/// same list.
proof fn lemma_members_eq_is_equality(xs: Seq<(Seq<char>, Json)>, ys: Seq<(Seq<char>, Json)>)
    requires
        members_float_free(xs),
        members_float_free(ys),
        members_eq(xs, ys),
    ensures
        xs == ys,
    decreases xs, 1nat,
{
    if xs.len() > 0 {
        let (fx, fy) = (xs.drop_last(), ys.drop_last());
        lemma_members_eq_is_equality(fx, fy);
        lemma_json_eq_is_equality(xs.last().1, ys.last().1);
        assert(xs =~= fx.push(xs.last()));
        assert(ys =~= fy.push(ys.last()));
    } else {
        assert(xs =~= ys);
    }
}

/// A plain value the world kept other than it was sent - a string, a
/// number, a flag, or one in place of another kind - is named, by the
/// pointer it was set at.
pub proof fn lemma_changed_value_is_named(pointer: Seq<char>, sent: Json, kept: Json)
    requires
        float_free(sent),
        float_free(kept),
        sent != kept,
        !(sent is Array && kept is Array),
        !(sent is Object && kept is Object),
    ensures
        adjustments_spec(pointer, Some(sent), Some(kept)) == seq![pointer],
{
    lemma_json_eq_is_equality(sent, kept);
}

/// A value compared with itself differs nowhere.
pub proof fn lemma_no_diffs_with_itself(j: Json, at: Seq<char>)
    ensures
        diffs(j, j, at) == Seq::<Seq<char>>::empty(),
    decreases j, 0nat, 0nat,
{
    match j {
        Json::Object(ms) => lemma_no_member_diffs_with_itself(ms, at),
        Json::Array(xs) => lemma_no_item_diffs_with_itself(xs, at, 0),
        _ => lemma_json_eq_refl(j),
    }
}

/// Members compared with themselves differ nowhere.
pub proof fn lemma_no_member_diffs_with_itself(ms: Seq<(Seq<char>, Json)>, at: Seq<char>)
    ensures
        member_diffs(ms, ms, at) == Seq::<Seq<char>>::empty(),
    decreases ms, 1nat, ms.len(),
{
    if ms.len() > 0 {
        assert(decreases_to!(ms => ms[0]));
        lemma_no_diffs_with_itself(ms[0].1, member_path(at, ms[0].0));
        lemma_no_member_diffs_with_itself(ms.subrange(1, ms.len() as int), at);
    }
}

/// Items compared with themselves differ nowhere.
pub proof fn lemma_no_item_diffs_with_itself(xs: Seq<Json>, at: Seq<char>, i: nat)
    ensures
        item_diffs(xs, xs, at, i) == Seq::<Seq<char>>::empty(),
    decreases xs, 1nat, xs.len() - i,
{
    if i < xs.len() {
        lemma_no_diffs_with_itself(xs[i as int], item_path(at, i));
        lemma_no_item_diffs_with_itself(xs, at, i + 1);
    }
}

/// A value the world kept exactly as it was sent is no adjustment.
pub proof fn lemma_kept_as_sent_is_no_adjustment(pointer: Seq<char>, value: Json)
    ensures
        adjustments_spec(pointer, Some(value), Some(value)) == Seq::<Seq<char>>::empty(),
{
    lemma_no_diffs_with_itself(value, pointer);
}


/// Whether every object in `j` holds its members in the order of their
/// names, one member to a name - as a map holds them.
pub open spec fn json_wf(j: Json) -> bool
    decreases j, 0nat,
{
    match j {
        Json::Array(xs) => items_wf(xs),
        Json::Object(ms) => names_sorted(ms) && members_wf(ms),
        _ => true,
    }
}

/// Whether every item of `xs` is [`json_wf`].
pub open spec fn items_wf(xs: Seq<Json>) -> bool
    decreases xs, 1nat,
{
    xs.len() == 0 || (items_wf(xs.drop_last()) && json_wf(xs.last()))
}

/// Whether every member's value in `ms` is [`json_wf`].
pub open spec fn members_wf(ms: Seq<(Seq<char>, Json)>) -> bool
    decreases ms, 1nat,
{
    ms.len() == 0 || (members_wf(ms.drop_last()) && json_wf(ms.last().1))
}

/// Whether the members' names strictly increase.
pub open spec fn names_sorted(ms: Seq<(Seq<char>, Json)>) -> bool {
    forall|a: int, b: int| 0 <= a < b < ms.len() ==> str_lt(#[trigger] ms[a].0, #[trigger] ms[b].0)
}

/// [`items_wf`] is every item well formed.
pub proof fn lemma_items_wf(xs: Seq<Json>)
    ensures
        items_wf(xs) <==> forall|i: int| 0 <= i < xs.len() ==> json_wf(#[trigger] xs[i]),
    decreases xs.len(),
{
    if xs.len() > 0 {
        let d = xs.drop_last();
        lemma_items_wf(d);
        if items_wf(xs) {
            assert forall|i: int| 0 <= i < xs.len() implies json_wf(#[trigger] xs[i]) by {
                if i < xs.len() - 1 {
                    assert(d[i] == xs[i]);
                }
            }
        }
        if forall|i: int| 0 <= i < xs.len() ==> json_wf(#[trigger] xs[i]) {
            assert forall|i: int| 0 <= i < d.len() implies json_wf(#[trigger] d[i]) by {
                assert(d[i] == xs[i]);
            }
            assert(json_wf(xs[xs.len() - 1]));
        }
    }
}

/// [`members_wf`] is every member's value well formed.
pub proof fn lemma_members_wf(ms: Seq<(Seq<char>, Json)>)
    ensures
        members_wf(ms) <==> forall|i: int| 0 <= i < ms.len() ==> json_wf(#[trigger] ms[i].1),
    decreases ms.len(),
{
    if ms.len() > 0 {
        let d = ms.drop_last();
        lemma_members_wf(d);
        if members_wf(ms) {
            assert forall|i: int| 0 <= i < ms.len() implies json_wf(#[trigger] ms[i].1) by {
                if i < ms.len() - 1 {
                    assert(d[i] == ms[i]);
                }
            }
        }
        if forall|i: int| 0 <= i < ms.len() ==> json_wf(#[trigger] ms[i].1) {
            assert forall|i: int| 0 <= i < d.len() implies json_wf(#[trigger] d[i].1) by {
                assert(d[i] == ms[i]);
            }
            assert(json_wf(ms[ms.len() - 1].1));
        }
    }
}

/// Putting a member under a name keeps the names in order, one to a name,
/// and every value well formed when the new one is.
proof fn lemma_insert_member_wf(ms: Seq<(Seq<char>, Json)>, k: Seq<char>, v: Json)
    requires
        names_sorted(ms),
        members_wf(ms),
        json_wf(v),
    ensures
        names_sorted(insert_member(ms, k, v)),
        members_wf(insert_member(ms, k, v)),
{
    lemma_key_at_found(ms, k);
    lemma_members_wf(ms);
    let i = key_at(ms, k);
    let out = insert_member(ms, k, v);
    if i < ms.len() {
        assert forall|a: int, b: int| 0 <= a < b < out.len() implies str_lt(
            #[trigger] out[a].0,
            #[trigger] out[b].0,
        ) by {
            assert(out[a].0 == ms[a].0);
            assert(out[b].0 == ms[b].0);
        }
        lemma_members_wf(out);
    } else {
        let at = after_at(ms, k);
        lemma_after_at_bound(ms, k);
        lemma_after_at_found(ms, k);
        assert forall|a: int, b: int| 0 <= a < b < out.len() implies str_lt(
            #[trigger] out[a].0,
            #[trigger] out[b].0,
        ) by {
            if b < at {
                assert(out[a] == ms[a] && out[b] == ms[b]);
            } else if b == at {
                assert(out[a] == ms[a]);
                assert(out[b].0 == k);
                assert(!str_lt(k, ms[a].0));
                assert(ms[a].0 != k);
                lemma_str_lt_total(ms[a].0, k);
            } else if a == at {
                assert(out[a].0 == k);
                assert(out[b] == ms[b - 1]);
                assert(str_lt(k, ms[at].0));
                if b - 1 > at {
                    assert(str_lt(ms[at].0, ms[b - 1].0));
                    lemma_str_lt_transitive(k, ms[at].0, ms[b - 1].0);
                }
            } else if a < at {
                assert(out[a] == ms[a] && out[b] == ms[b - 1]);
            } else {
                assert(out[a] == ms[a - 1] && out[b] == ms[b - 1]);
            }
        }
        assert forall|m: int| 0 <= m < out.len() implies json_wf(#[trigger] out[m].1) by {
            if m < at {
                assert(out[m] == ms[m]);
            } else if m > at {
                assert(out[m] == ms[m - 1]);
            }
        }
        lemma_members_wf(out);
    }
}

/// What `after_at` finds: no member before it sorts after `k`, and the one
/// at it, if any, does.
proof fn lemma_after_at_found(ms: Seq<(Seq<char>, Json)>, k: Seq<char>)
    ensures
        after_at(ms, k) < ms.len() ==> str_lt(k, ms[after_at(ms, k)].0),
        forall|j: int| 0 <= j < after_at(ms, k) ==> !str_lt(k, #[trigger] ms[j].0),
    decreases ms.len(),
{
    if ms.len() > 0 && !str_lt(k, ms[0].0) {
        let t = ms.skip(1);
        lemma_after_at_found(t, k);
        lemma_after_at_bound(t, k);
        assert forall|j: int| 0 <= j < after_at(ms, k) implies !str_lt(k, #[trigger] ms[j].0) by {
            if j > 0 {
                assert(ms[j] == t[j - 1]);
            }
        }
    }
}

/// Putting a value into a container keeps it well formed when the value
/// is.
proof fn lemma_place_wf(j: Json, t: Seq<char>, v: Json)
    requires
        json_wf(j),
        json_wf(v),
        place(j, t, v) is Ok,
    ensures
        json_wf(place(j, t, v)->Ok_0),
{
    match j {
        Json::Object(ms) => lemma_insert_member_wf(ms, t, v),
        Json::Array(items) => {
            lemma_items_wf(items);
            lemma_items_wf(place(j, t, v)->Ok_0->Array_0);
        },
        _ => {},
    }
}

/// Replacing the part one step down keeps the whole well formed when the
/// replacement is.
proof fn lemma_replace_step_wf(j: Json, t: Seq<char>, c: Json)
    requires
        json_wf(j),
        json_wf(c),
        step(j, t) is Some,
    ensures
        json_wf(replace_step(j, t, c)),
{
    match j {
        Json::Object(ms) => {
            lemma_key_at_found(ms, t);
            lemma_members_wf(ms);
            let i = key_at(ms, t);
            let out = ms.update(i, (ms[i].0, c));
            assert forall|a: int, b: int| 0 <= a < b < out.len() implies str_lt(
                #[trigger] out[a].0,
                #[trigger] out[b].0,
            ) by {
                assert(out[a].0 == ms[a].0);
                assert(out[b].0 == ms[b].0);
            }
            lemma_members_wf(out);
        },
        Json::Array(items) => {
            lemma_items_wf(items);
            lemma_items_wf(replace_step(j, t, c)->Array_0);
        },
        _ => {},
    }
}

/// The part one step down from a well formed value is well formed.
proof fn lemma_step_wf(j: Json, t: Seq<char>)
    requires
        json_wf(j),
        step(j, t) is Some,
    ensures
        json_wf(step(j, t)->0),
{
    match j {
        Json::Object(ms) => {
            lemma_key_at_found(ms, t);
            lemma_members_wf(ms);
        },
        Json::Array(items) => lemma_items_wf(items),
        _ => {},
    }
}

/// Setting along tokens keeps a well formed value well formed.
proof fn lemma_put_wf(j: Json, ts: Seq<Seq<char>>, v: Json)
    requires
        json_wf(j),
        json_wf(v),
        put_spec(j, ts, v) is Ok,
    ensures
        json_wf(put_spec(j, ts, v)->Ok_0),
    decreases ts.len(),
{
    if ts.len() == 1 {
        lemma_place_wf(j, ts[0], v);
    } else if ts.len() > 1 {
        let c = step(j, ts[0])->0;
        lemma_step_wf(j, ts[0]);
        lemma_put_wf(c, ts.skip(1), v);
        lemma_replace_step_wf(j, ts[0], put_spec(c, ts.skip(1), v)->Ok_0);
    }
}

/// A set keeps a document a map's document: every object's members in the
/// order of their names, one to a name, when they were so before and in
/// the value set.
pub proof fn lemma_set_keeps_members_in_order(j: Json, p: Seq<char>, v: Json)
    requires
        json_wf(j),
        json_wf(v),
        set_spec(j, p, v) is Ok,
    ensures
        json_wf(set_spec(j, p, v)->Ok_0),
{
    if p.len() > 0 {
        lemma_put_wf(j, pointer_tokens(p), v);
    }
}

} // verus!
