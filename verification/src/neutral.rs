//! The shape of a neutral scale: thirteen steps with the three anchors pinned.
use vstd::prelude::*;
use vstd::string::StringExecFns;
use crate::text::texts;

verus! {

/// The scale from its anchors and the eleven steps between them: step 0 is the
/// light anchor, step 6 the base anchor and step 12 the dark anchor, exactly as
/// given; steps 1 to 5 and 7 to 11 are the computed ones, in order.
pub open spec fn pinned_scale(
    light: Seq<char>,
    base: Seq<char>,
    dark: Seq<char>,
    between: Seq<Seq<char>>,
) -> Seq<Seq<char>> {
    Seq::new(
        13,
        |i: int|
            if i == 0 {
                light
            } else if i < 6 {
                between[i - 1]
            } else if i == 6 {
                base
            } else if i < 12 {
                between[i - 2]
            } else {
                dark
            },
    )
}

/// Lays out a thirteen-step neutral scale: the anchors are kept exactly as
/// given (no round trip through a colour space), the ten computed steps fill
/// the places between them.
pub fn pin_scale_anchors(light: &str, base: &str, dark: &str, between: &Vec<String>) -> (scale: Vec<
    String,
>)
    requires
        between@.len() == 10,
    ensures
        texts(scale@) == pinned_scale(light@, base@, dark@, texts(between@)),
{
    let ghost want = pinned_scale(light@, base@, dark@, texts(between@));
    let mut scale: Vec<String> = Vec::new();
    let mut i: usize = 0;
    while i < 13
        invariant
            between@.len() == 10,
            want == pinned_scale(light@, base@, dark@, texts(between@)),
            i <= 13,
            texts(scale@) == want.take(i as int),
        decreases 13 - i,
    {
        let step = if i == 0 {
            String::from_str(light)
        } else if i < 6 {
            between[i - 1].clone()
        } else if i == 6 {
            String::from_str(base)
        } else if i < 12 {
            between[i - 2].clone()
        } else {
            String::from_str(dark)
        };
        let ghost before = scale@;
        let ghost sv = step@;
        assert(sv == want[i as int]);
        scale.push(step);
        assert(texts(scale@) =~= texts(before).push(sv));
        assert(texts(scale@) =~= want.take(i + 1));
        i = i + 1;
    }
    assert(want.take(13) =~= want);
    scale
}

/// A neutral scale has thirteen steps, and its anchors are exactly the ones configured.
pub proof fn lemma_pinned_scale_shape(
    light: Seq<char>,
    base: Seq<char>,
    dark: Seq<char>,
    between: Seq<Seq<char>>,
)
    ensures
        pinned_scale(light, base, dark, between).len() == 13,
        pinned_scale(light, base, dark, between)[0] == light,
        pinned_scale(light, base, dark, between)[6] == base,
        pinned_scale(light, base, dark, between)[12] == dark,
{
}

} // verus!
