//! Decisions of the audio path: which device to open, and which effects the
//! voice changer chains, in which order.

use vstd::prelude::*;

verus! {

/// The device to open among those listed under `names`: the last one named
/// `wanted`, if any is (the system default is used otherwise).
pub fn find_device(names: &Vec<String>, wanted: &String) -> (r: Option<usize>)
    ensures
        match r {
            Some(i) => {
                &&& i < names@.len()
                &&& names@[i as int]@ == wanted@
                &&& forall|j: int| i < j < names@.len() ==> #[trigger] names@[j]@ != wanted@
            },
            None => forall|j: int| 0 <= j < names@.len() ==> #[trigger] names@[j]@ != wanted@,
        },
{
    let mut found: Option<usize> = None;
    let n = names.len();
    for i in 0..n
        invariant
            n == names@.len(),
            match found {
                Some(k) => {
                    &&& k < i
                    &&& names@[k as int]@ == wanted@
                    &&& forall|j: int| k < j < i ==> #[trigger] names@[j]@ != wanted@
                },
                None => forall|j: int| 0 <= j < i ==> #[trigger] names@[j]@ != wanted@,
            },
    {
        if names[i] == *wanted {
            found = Some(i);
        }
    }
    found
}

/// An effect of the voice changer.
#[derive(Clone, Copy, Debug, PartialEq, Eq, Structural)]
pub enum Effect {
    Bandpass,
    PitchShift,
    Flanger,
}

/// The place of an effect in the signal path: band-pass first, pitch shift
/// second, flanger last.
pub open spec fn effect_rank(e: Effect) -> int {
    match e {
        Effect::Bandpass => 0,
        Effect::PitchShift => 1,
        Effect::Flanger => 2,
    }
}

/// `chain` holds each effect exactly when its own switch is on (pitch shift
/// on switch 0, flanger on switch 1, band-pass on switch 2), each at most
/// once, in signal-path order.
pub open spec fn chain_follows_switches(chain: Seq<Effect>, enabled: [bool; 3]) -> bool {
    &&& chain.contains(Effect::Bandpass) <==> enabled[2]
    &&& chain.contains(Effect::PitchShift) <==> enabled[0]
    &&& chain.contains(Effect::Flanger) <==> enabled[1]
    &&& forall|i: int, j: int|
        0 <= i < j < chain.len() ==> effect_rank(#[trigger] chain[i]) < effect_rank(#[trigger] chain[j])
}

/// The effects that the switches `enabled` (pitch shift, flanger, band-pass)
/// turn on, in the order the signal passes them: band-pass, then pitch shift,
/// then flanger.
pub open spec fn effect_order(enabled: [bool; 3]) -> Seq<Effect> {
    (if enabled[2] { seq![Effect::Bandpass] } else { Seq::empty() })
        + (if enabled[0] { seq![Effect::PitchShift] } else { Seq::empty() })
        + (if enabled[1] { seq![Effect::Flanger] } else { Seq::empty() })
}

/// The chain of effects that the voice changer applies to the microphone.
pub fn effect_chain(enabled: [bool; 3]) -> (r: Vec<Effect>)
    ensures
        r@ == effect_order(enabled),
        chain_follows_switches(r@, enabled),
{
    let mut r: Vec<Effect> = Vec::new();
    if enabled[2] {
        r.push(Effect::Bandpass);
    }
    if enabled[0] {
        r.push(Effect::PitchShift);
    }
    if enabled[1] {
        r.push(Effect::Flanger);
    }
    assert(r@ =~= effect_order(enabled));
    proof {
        lemma_effect_order_follows_switches(enabled);
    }
    r
}

/// Each effect is in the chain exactly when its own switch is on, and the
/// chain runs band-pass, then pitch shift, then flanger.
pub proof fn lemma_effect_order_follows_switches(enabled: [bool; 3])
    ensures
        chain_follows_switches(effect_order(enabled), enabled),
{
    let c = effect_order(enabled);
    if enabled[2] {
        assert(c[0] == Effect::Bandpass);
    }
    if enabled[0] {
        assert(c[if enabled[2] { 1int } else { 0int }] == Effect::PitchShift);
    }
    if enabled[1] {
        assert(c[c.len() - 1] == Effect::Flanger);
    }
    assert forall|e: Effect| c.contains(e) implies (e == Effect::Bandpass ==> enabled[2]) && (e
        == Effect::PitchShift ==> enabled[0]) && (e == Effect::Flanger ==> enabled[1]) by {
        let i = choose|i: int| 0 <= i < c.len() && c[i] == e;
    }
}

} // verus!
