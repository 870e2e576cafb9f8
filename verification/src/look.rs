//! `agent look`: a picture of what the agent sees, taken when it is asked
//! for and at no other time - the frames a picture takes, and the PNG it is
//! written as.
use vstd::prelude::*;
use crate::config::{LOOK_ANSWER_TIMEOUT_MS, LOOK_WARMUP_FRAMES};
use crate::text::{decimal, decimal_spec, joined};
use crate::json::{lemma_str_lt_asymmetric, lemma_str_lt_irreflexive, lemma_str_lt_total, lemma_str_lt_transitive, str_lt, strs_of};
use vstd::relations::{sorted_by, total_ordering};
use vstd::seq_lib::lemma_sorted_unique;

verus! {

broadcast use vstd::string::group_string_axioms;

/// Where a picture under way has got to.
#[derive(PartialEq, Eq, Structural, Clone, Copy, Debug)]
pub enum LookStage {
    /// The camera renders this many more frames before it is read back.
    Warming { frames_left: u32 },
    /// A readback is under way; whether its bytes have landed.
    Reading { landed: bool },
}

/// What a frame does with a picture under way.
#[derive(PartialEq, Eq, Structural, Clone, Copy, Debug)]
pub enum LookNext {
    /// Nothing yet.
    Wait,
    /// Read the camera's image back, once.
    Read,
    /// The bytes are in: clear the camera away and write the picture.
    Finish,
    /// The picture did not come in time: clear the camera away and say so.
    GiveUp,
}

/// A picture under way, as the frames see it.
#[derive(PartialEq, Eq, Structural, Clone, Copy, Debug)]
pub struct LookProgress {
    pub stage: LookStage,
    /// The frames it has taken so far.
    pub frames: u32,
}

impl LookProgress {
    /// A picture just aimed: its camera warms up for the frames the renderer
    /// needs before what it shows is whole.
    pub fn new() -> (p: LookProgress)
        ensures
            p.stage == (LookStage::Warming { frames_left: LOOK_WARMUP_FRAMES }),
            p.frames == 0,
    {
        LookProgress { stage: LookStage::Warming { frames_left: LOOK_WARMUP_FRAMES }, frames: 0 }
    }
}

/// What a frame makes of a picture under way: counted, then given up on if
/// its time ran out; otherwise warmed one frame more, read back once it is
/// warm, waited on until its bytes land, and finished once they have.
pub open spec fn advance_spec(p: LookProgress, timed_out: bool) -> (LookProgress, LookNext) {
    let frames = (p.frames + 1) as u32;
    if timed_out {
        (LookProgress { stage: p.stage, frames }, LookNext::GiveUp)
    } else {
        match p.stage {
            LookStage::Warming { frames_left } => if frames_left == 0 {
                (LookProgress { stage: LookStage::Reading { landed: false }, frames }, LookNext::Read)
            } else {
                (
                    LookProgress {
                        stage: LookStage::Warming { frames_left: (frames_left - 1) as u32 },
                        frames,
                    },
                    LookNext::Wait,
                )
            },
            LookStage::Reading { landed } => if landed {
                (LookProgress { stage: p.stage, frames }, LookNext::Finish)
            } else {
                (LookProgress { stage: p.stage, frames }, LookNext::Wait)
            },
        }
    }
}

/// Every frame a picture is under way: count its frames, then read it back
/// once, then finish it - or give up on a picture that never came, so a
/// camera is never left rendering. `timed_out` is whether the picture has
/// taken longer than it may.
pub fn advance(p: LookProgress, timed_out: bool) -> (r: (LookProgress, LookNext))
    requires
        p.frames < u32::MAX,
    ensures
        r == advance_spec(p, timed_out),
        // A camera is read back once: never again once a readback is under way.
        p.stage is Reading ==> r.1 != LookNext::Read,
        r.1 == LookNext::Read ==> r.0.stage == (LookStage::Reading { landed: false }),
{
    let frames = p.frames + 1;
    if timed_out {
        return (LookProgress { stage: p.stage, frames }, LookNext::GiveUp);
    }
    match p.stage {
        LookStage::Warming { frames_left } => if frames_left == 0 {
            (LookProgress { stage: LookStage::Reading { landed: false }, frames }, LookNext::Read)
        } else {
            (
                LookProgress { stage: LookStage::Warming { frames_left: frames_left - 1 }, frames },
                LookNext::Wait,
            )
        },
        LookStage::Reading { landed } => if landed {
            (LookProgress { stage: p.stage, frames }, LookNext::Finish)
        } else {
            (LookProgress { stage: p.stage, frames }, LookNext::Wait)
        },
    }
}

/// A readback landed: the first bytes of the readback under way are the
/// picture; anything later, or with no readback under way, changes
/// nothing.
pub fn readback_landed(p: LookProgress) -> (r: LookProgress)
    ensures
        r.frames == p.frames,
        r.stage == (match p.stage {
            LookStage::Reading { .. } => LookStage::Reading { landed: true },
            other => other,
        }),
{
    match p.stage {
        LookStage::Reading { .. } => LookProgress { stage: LookStage::Reading { landed: true }, frames: p.frames },
        _ => p,
    }
}

/// A picture's camera is read back within the warm-up and one frame more,
/// when its time does not run out first.
pub proof fn lemma_warm_then_read(p: LookProgress)
    requires
        p.stage is Warming,
        p.frames < u32::MAX - p.stage->frames_left - 1,
    ensures
        advance_spec(warmed(p, p.stage->frames_left as nat), false).1 == LookNext::Read,
    decreases p.stage->frames_left,
{
    let n = p.stage->frames_left;
    if n > 0 {
        let q = advance_spec(p, false).0;
        lemma_warm_then_read(q);
        assert(warmed(p, n as nat) == warmed(q, (n - 1) as nat));
    }
}

/// `p` after `n` frames of warming, its time not run out.
pub open spec fn warmed(p: LookProgress, n: nat) -> LookProgress
    decreases n,
{
    if n == 0 {
        p
    } else {
        warmed(advance_spec(p, false).0, (n - 1) as nat)
    }
}

/// What a picture that did not come in time is told.
pub open spec fn not_ready_message() -> Seq<char> {
    "the picture was not ready within "@ + decimal_spec((LOOK_ANSWER_TIMEOUT_MS / 1000) as nat)
        + " s"@
}

/// What a picture that did not come in time is told.
pub fn not_ready() -> (m: String)
    ensures
        m@ == not_ready_message(),
{
    let secs = decimal(LOOK_ANSWER_TIMEOUT_MS / 1000);
    let a = joined("the picture was not ready within ", secs.as_str());
    joined(a.as_str(), " s")
}

/// The first `n` pixels of RGBA bytes, each without its alpha.
pub open spec fn rgb_pixels(rgba: Seq<u8>, n: nat) -> Seq<u8>
    decreases n,
{
    if n == 0 {
        Seq::empty()
    } else {
        let i = 4 * (n - 1);
        rgb_pixels(rgba, (n - 1) as nat) + seq![rgba[i], rgba[i + 1], rgba[i + 2]]
    }
}

/// The pixels of `rgba` as RGB: each fourth byte, the alpha, dropped.
pub fn rgb_of(rgba: &[u8]) -> (rgb: Vec<u8>)
    ensures
        rgb@ == rgb_pixels(rgba@, rgba@.len() / 4),
{
    let n = rgba.len() / 4;
    assert(4 * n <= rgba@.len());
    assert(rgba@.len() == rgba.len());
    let mut rgb: Vec<u8> = Vec::new();
    let mut k: usize = 0;
    while k < n
        invariant
            k <= n,
            n == rgba@.len() / 4,
            4 * n <= rgba@.len(),
            rgba@.len() <= usize::MAX,
            rgb@ == rgb_pixels(rgba@, k as nat),
        decreases n - k,
    {
        let i = 4 * k;
        rgb.push(rgba[i]);
        rgb.push(rgba[i + 1]);
        rgb.push(rgba[i + 2]);
        k = k + 1;
        assert(rgb@ =~= rgb_pixels(rgba@, k as nat));
    }
    rgb
}

/// The PNG that `image`'s PNG encoder writes of RGB bytes of that size -
/// or the words of its refusal.
pub uninterp spec fn png_rgb8(rgb: Seq<u8>, width: u32, height: u32) -> Result<Seq<u8>, Seq<char>>;

/// `image::codecs::png::PngEncoder`'s `write_image`, of 8-bit RGB, into a
/// vector. It panics unless the bytes are exactly those of the size given,
/// so that is asked; what it writes, or the words of its error, are
/// claimed only to be a function of the bytes and the size.
#[verifier::external_body]
fn encode_rgb8(rgb: &[u8], width: u32, height: u32) -> (r: Result<Vec<u8>, String>)
    requires
        rgb@.len() == 3 * (width as int) * (height as int),
    ensures
        match r {
            Ok(png) => png_rgb8(rgb@, width, height) == Ok::<Seq<u8>, Seq<char>>(png@),
            Err(e) => png_rgb8(rgb@, width, height) == Err::<Seq<u8>, Seq<char>>(e@),
        },
{
    let mut png: Vec<u8> = Vec::new();
    match image::ImageEncoder::write_image(
        image::codecs::png::PngEncoder::new(&mut png),
        rgb,
        width,
        height,
        image::ExtendedColorType::Rgb8,
    ) {
        Ok(()) => Ok(png),
        Err(e) => Err(e.to_string()),
    }
}

/// What a readback of the wrong size is told.
pub open spec fn wrong_size_message(len: nat, width: u32, height: u32) -> Seq<char> {
    "the readback is "@ + decimal_spec(len) + " bytes, not the "@ + decimal_spec(
        (4 * width * height) as nat,
    ) + " a "@ + decimal_spec(width as nat) + "x"@ + decimal_spec(height as nat)
        + " picture has"@
}

/// The readback - sRGB RGBA rows of a `width` by `height` picture - as an
/// RGB PNG. A readback of any other size is refused rather than written
/// as a sheared picture.
pub fn encode_png(rgba: &[u8], width: u32, height: u32) -> (r: Result<Vec<u8>, String>)
    requires
        4 * (width as int) * (height as int) <= usize::MAX,
    ensures
        rgba@.len() != 4 * (width as int) * (height as int) ==> (r matches Err(e) && e@
            == wrong_size_message(rgba@.len(), width, height)),
        rgba@.len() == 4 * (width as int) * (height as int) ==> match png_rgb8(
            rgb_pixels(rgba@, (width * height) as nat),
            width,
            height,
        ) {
            Ok(png) => (r matches Ok(v) && v@ == png),
            Err(e) => (r matches Err(m) && m@ == e),
        },
{
    assert(4 * ((width as int) * (height as int)) == 4 * (width as int) * (height as int))
        by (nonlinear_arith);
    let pixels = (width as usize) * (height as usize);
    if rgba.len() != pixels * 4 {
        let a = joined("the readback is ", decimal(rgba.len() as u64).as_str());
        let b = joined(a.as_str(), " bytes, not the ");
        let c = joined(b.as_str(), decimal((pixels * 4) as u64).as_str());
        let d = joined(c.as_str(), " a ");
        let e = joined(d.as_str(), decimal(width as u64).as_str());
        let f = joined(e.as_str(), "x");
        let g = joined(f.as_str(), decimal(height as u64).as_str());
        return Err(joined(g.as_str(), " picture has"));
    }
    let rgb = rgb_of(rgba);
    assert(rgba@.len() / 4 == pixels);
    proof {
        lemma_rgb_len(rgba@, pixels as nat);
        assert(3 * ((width as int) * (height as int)) == 3 * (width as int) * (height as int))
            by (nonlinear_arith);
    }
    encode_rgb8(rgb.as_slice(), width, height)
}

/// Three bytes a pixel.
pub proof fn lemma_rgb_len(rgba: Seq<u8>, n: nat)
    ensures
        rgb_pixels(rgba, n).len() == 3 * n,
    decreases n,
{
    if n > 0 {
        lemma_rgb_len(rgba, (n - 1) as nat);
    }
}


/// `n` in decimal, with a `-` before a negative one.
pub open spec fn signed_decimal(n: int) -> Seq<char> {
    if n < 0 {
        seq!['-'] + decimal_spec((-n) as nat)
    } else {
        decimal_spec(n as nat)
    }
}

/// The name of a picture taken at `millis` Unix milliseconds: names sort
/// by the time they were taken.
pub open spec fn picture_name_spec(millis: int) -> Seq<char> {
    "look-"@ + signed_decimal(millis) + ".png"@
}

/// The name a picture taken at `millis` Unix milliseconds is written
/// under in the agent's own directory: `look-<millis>.png`.
pub fn picture_name(millis: i64) -> (name: String)
    ensures
        name@ == picture_name_spec(millis as int),
{
    let digits = if millis < 0 {
        let magnitude: u64 = (0i128 - (millis as i128)) as u64;
        assert(magnitude == -(millis as int));
        proof {
            reveal_strlit("-");
        }
        joined("-", decimal(magnitude).as_str())
    } else {
        decimal(millis as u64)
    };
    let a = joined("look-", digits.as_str());
    joined(a.as_str(), ".png")
}

/// Whether a file in the agent's picture directory is one of its pictures.
pub open spec fn is_picture_spec(name: Seq<char>) -> bool {
    crate::text::starts_with(name, "look-"@) && name.len() >= ".png"@.len() && name.subrange(
        name.len() - ".png"@.len(),
        name.len() as int,
    ) == ".png"@
}

/// Whether the file `name` is one of the agent's pictures: `look-...png`.
pub fn is_picture(name: &str) -> (b: bool)
    ensures
        b == is_picture_spec(name@),
{
    let v = crate::text::chars_of(name);
    let head = crate::text::chars_of("look-");
    let tail = crate::text::chars_of(".png");
    if !crate::text::has_prefix(&v, &head) || v.len() < tail.len() {
        return false;
    }
    let from = v.len() - tail.len();
    let end = crate::text::slice_of(&v, from, v.len());
    crate::observe::same_chars(&end, &tail)
}


/// Whether the name `a` sorts no later than `b`: the order the agent's
/// pictures are taken in, as their names carry the time.
pub open spec fn name_le(a: Seq<char>, b: Seq<char>) -> bool {
    !str_lt(b, a)
}

/// [`name_le`], as a relation.
pub open spec fn name_order() -> spec_fn(Seq<char>, Seq<char>) -> bool {
    |a: Seq<char>, b: Seq<char>| name_le(a, b)
}

/// Names sort in a total order.
pub proof fn lemma_name_order_total()
    ensures
        total_ordering(name_order()),
{
    let r = name_order();
    assert forall|x: Seq<char>| #[trigger] r(x, x) by {
        lemma_str_lt_irreflexive(x);
    }
    assert forall|x: Seq<char>, y: Seq<char>| #[trigger] r(x, y) && #[trigger] r(y, x) implies x
        == y by {
        lemma_str_lt_total(x, y);
    }
    assert forall|x: Seq<char>, y: Seq<char>, z: Seq<char>| #[trigger] r(x, y) && #[trigger] r(
        y,
        z,
    ) implies r(x, z) by {
        lemma_str_lt_total(x, y);
        if str_lt(z, x) {
            if x == y {
            } else if str_lt(x, y) {
                lemma_str_lt_transitive(z, x, y);
            }
        }
    }
    assert forall|x: Seq<char>, y: Seq<char>| #[trigger] r(x, y) || #[trigger] r(y, x) by {
        if str_lt(y, x) {
            lemma_str_lt_asymmetric(y, x);
        }
    }
}

/// The names of the agent's pictures among `names`, in the order given.
pub open spec fn pictures_of(names: Seq<Seq<char>>) -> Seq<Seq<char>> {
    names.filter(|n: Seq<char>| is_picture_spec(n))
}

/// `s` in name order.
pub open spec fn in_name_order(s: Seq<Seq<char>>) -> Seq<Seq<char>> {
    s.sort_by(name_order())
}

/// The pictures to remove from a directory holding `names` so that it
/// keeps the newest `keep`: the oldest of them, all but `keep`.
pub open spec fn to_trim_spec(names: Seq<Seq<char>>, keep: nat) -> Seq<Seq<char>> {
    let pictures = in_name_order(pictures_of(names));
    if pictures.len() > keep {
        pictures.take(pictures.len() - keep)
    } else {
        Seq::empty()
    }
}

/// Where `x` goes among the sorted names `sorted`: after every name it
/// does not sort before.
fn sorted_place(sorted: &Vec<String>, x: &Vec<char>) -> (pos: usize)
    ensures
        pos <= sorted@.len(),
        forall|j: int| 0 <= j < pos ==> !str_lt(x@, #[trigger] strs_of(sorted@)[j]),
        pos < sorted@.len() ==> str_lt(x@, strs_of(sorted@)[pos as int]),
{
    let ghost cur = strs_of(sorted@);
    let mut pos: usize = 0;
    while pos < sorted.len()
        invariant
            pos <= sorted@.len(),
            cur == strs_of(sorted@),
            forall|j: int| 0 <= j < pos ==> !str_lt(x@, #[trigger] cur[j]),
        decreases sorted@.len() - pos,
    {
        let y = crate::text::chars_of(sorted[pos].as_str());
        if crate::json::str_less(x, &y) {
            return pos;
        }
        pos = pos + 1;
    }
    pos
}

/// Which files to remove from a picture directory holding `names` so that
/// it keeps the newest `keep` pictures. Their names carry the time they
/// were taken, so the oldest sort first; anything that is not a picture is
/// left alone.
pub fn pictures_to_trim(names: &Vec<String>, keep: usize) -> (old: Vec<String>)
    ensures
        strs_of(old@) == to_trim_spec(strs_of(names@), keep as nat),
{
    broadcast use vstd::seq_lib::group_to_multiset_ensures;
    let ghost all = strs_of(names@);
    let mut pictures: Vec<String> = Vec::new();
    let mut i: usize = 0;
    assert(all.take(0) =~= Seq::<Seq<char>>::empty());
    while i < names.len()
        invariant
            i <= names@.len(),
            all == strs_of(names@),
            strs_of(pictures@) == pictures_of(all.take(i as int)),
        decreases names@.len() - i,
    {
        assert(all.take(i + 1) =~= all.take(i as int).push(names@[i as int]@));
        proof {
            all.take(i as int).lemma_filter_push(names@[i as int]@, |n: Seq<char>| is_picture_spec(n));
        }
        if is_picture(names[i].as_str()) {
            let ghost before = strs_of(pictures@);
            pictures.push(names[i].clone());
            assert(strs_of(pictures@) =~= before.push(names@[i as int]@));
        }
        i = i + 1;
    }
    assert(all.take(i as int) =~= all);
    let ghost found = strs_of(pictures@);
    let mut sorted: Vec<String> = Vec::new();
    let mut k: usize = 0;
    assert(found.take(0) =~= Seq::<Seq<char>>::empty());
    while k < pictures.len()
        invariant
            k <= pictures@.len(),
            found == strs_of(pictures@),
            sorted_by(strs_of(sorted@), name_order()),
            strs_of(sorted@).to_multiset() == found.take(k as int).to_multiset(),
        decreases pictures@.len() - k,
    {
        let x = crate::text::chars_of(pictures[k].as_str());
        let ghost cur = strs_of(sorted@);
        let pos = sorted_place(&sorted, &x);
        sorted.insert(pos, pictures[k].clone());
        let ghost next = strs_of(sorted@);
        assert(next =~= cur.insert(pos as int, x@));
        assert(found.take(k + 1) =~= found.take(k as int).push(found[k as int]));
        proof {
            vstd::seq_lib::to_multiset_insert(cur, pos as int, x@);
            vstd::seq_lib::to_multiset_build(found.take(k as int), found[k as int]);
        }
        assert(sorted_by(next, name_order())) by {
            assert forall|a: int, b: int| 0 <= a < b < next.len() implies #[trigger] name_le(
                next[a],
                next[b],
            ) by {
                if b < pos {
                    assert(next[a] == cur[a] && next[b] == cur[b]);
                    assert(name_order()(cur[a], cur[b]));
                } else if b == pos {
                    assert(next[a] == cur[a]);
                } else if a == pos {
                    assert(next[b] == cur[b - 1]);
                    assert(str_lt(x@, cur[pos as int]));
                    if b - 1 > pos {
                        assert(name_order()(cur[pos as int], cur[b - 1]));
                    }
                    if str_lt(cur[b - 1], x@) {
                        lemma_str_lt_transitive(cur[b - 1], x@, cur[pos as int]);
                        lemma_str_lt_irreflexive(cur[pos as int]);
                    }
                } else if a < pos {
                    assert(next[a] == cur[a] && next[b] == cur[b - 1]);
                    assert(name_order()(cur[a], cur[b - 1]));
                } else {
                    assert(next[a] == cur[a - 1] && next[b] == cur[b - 1]);
                    assert(name_order()(cur[a - 1], cur[b - 1]));
                }
            }
        }
        k = k + 1;
    }
    assert(found.take(k as int) =~= found);
    let ghost ordered = strs_of(sorted@);
    proof {
        lemma_name_order_total();
        found.lemma_sort_by_ensures(name_order());
        lemma_sorted_unique(ordered, in_name_order(found), name_order());
    }
    let surplus = if sorted.len() > keep {
        sorted.len() - keep
    } else {
        0
    };
    let mut old: Vec<String> = Vec::new();
    let mut j: usize = 0;
    while j < surplus
        invariant
            j <= surplus,
            surplus <= sorted@.len(),
            ordered == strs_of(sorted@),
            strs_of(old@) == ordered.take(j as int),
        decreases surplus - j,
    {
        let ghost before = strs_of(old@);
        let name = sorted[j].clone();
        assert(name@ == ordered[j as int]);
        old.push(name);
        assert(strs_of(old@) =~= before.push(ordered[j as int]));
        assert(ordered.take(j + 1) =~= ordered.take(j as int).push(ordered[j as int]));
        j = j + 1;
    }
    assert(strs_of(old@) =~= to_trim_spec(strs_of(names@), keep as nat));
    old
}

/// Only pictures are trimmed: anything else in the directory is left
/// alone, and at most all but `keep` of the pictures go.
pub proof fn lemma_only_pictures_trimmed(names: Seq<Seq<char>>, keep: nat)
    ensures
        forall|i: int|
            0 <= i < to_trim_spec(names, keep).len() ==> is_picture_spec(
                #[trigger] to_trim_spec(names, keep)[i],
            ),
        pictures_of(names).len() <= keep ==> to_trim_spec(names, keep).len() == 0,
        pictures_of(names).len() > keep ==> to_trim_spec(names, keep).len() == pictures_of(names).len() - keep,
{
    let p = pictures_of(names);
    lemma_name_order_total();
    p.lemma_sort_by_ensures(name_order());
    vstd::seq_lib::to_multiset_len(p);
    vstd::seq_lib::to_multiset_len(in_name_order(p));
    let t = to_trim_spec(names, keep);
    assert forall|i: int| 0 <= i < t.len() implies is_picture_spec(#[trigger] t[i]) by {
        let x = t[i];
        assert(in_name_order(p).contains(x)) by {
            assert(in_name_order(p)[i] == x);
        }
        assert(p.contains(x));
        let j = choose|j: int| 0 <= j < p.len() && p[j] == x;
        names.filter_lemma(|n: Seq<char>| is_picture_spec(n));
        assert(p[j] == x);
    }
}

} // verus!
