//! The voice pool and top-level engine: it synchronizes voices against a
//! snapshot's held-note list, advances and mixes every voice, retires the
//! voices whose release tail has completed, and routes the mix through the
//! three-band equalizer.
//!
//! The pool keeps at most one voice per note (`distinct_notes`), every
//! held note owns a voice after one synchronization step, and a newly
//! created voice always begins its attack — the contracts and lemmas here
//! state all three.

use vstd::prelude::*;

use crate::eq::{chain_step_sp, chain_wf, EqChain, EQ_Y_MAX, MIX_MAX};
use crate::fixed::{clamp_fp, clamp_sp};
use crate::model::{pressed_wf, SynthSnapshot};
use crate::params::SynthParams;
use crate::voice::{
    gate_stage_sp, voice_step_sp, voice_wf, EnvStage, VoiceModel, VoiceState, SR_MAX,
};

verus! {

/// Every voice in the sequence is well-formed.
pub open spec fn voices_wf(vs: Seq<VoiceState>) -> bool {
    forall|i: int| 0 <= i < vs.len() ==> voice_wf(#[trigger] vs[i]@)
}

/// No two voices are bound to the same note.
pub open spec fn distinct_notes(vs: Seq<VoiceState>) -> bool {
    forall|i: int, j: int| 0 <= i < j < vs.len() ==> vs[i].note != vs[j].note
}

/// Some voice in the sequence is bound to `note`.
pub open spec fn has_note(vs: Seq<VoiceState>, note: int) -> bool {
    exists|i: int| 0 <= i < vs.len() && #[trigger] vs[i].note as int == note
}

/// A voice after a gate update: only stage and gate change.
pub open spec fn gated_sp(v: VoiceState, gate: bool) -> VoiceState {
    VoiceState { stage: gate_stage_sp(v.stage, v.gate, gate), gate: gate, ..v }
}

/// The voice spawned for a newly held note: fresh state, gate on, attack.
pub open spec fn spawned_sp(note: u8) -> VoiceState {
    VoiceState {
        note: note,
        phase: 0,
        env_level: 0,
        stage: EnvStage::Attack,
        gate: true,
        filter_state: 0,
        lfo_phase: 0,
        noise_seed: (note as int * 1104607) as u32,
    }
}

/// The existing voices with their gates set to whether their note is
/// still held.
pub open spec fn sync_updated_sp(vs: Seq<VoiceState>, pressed: Seq<u8>) -> Seq<VoiceState> {
    Seq::new(vs.len(), |i: int| gated_sp(vs[i], pressed.contains(vs[i].note)))
}

/// The voices spawned for held notes that had none, in list order.
pub open spec fn sync_added_sp(vs: Seq<VoiceState>, pressed: Seq<u8>) -> Seq<VoiceState>
    decreases pressed.len(),
{
    if pressed.len() == 0 {
        Seq::empty()
    } else {
        let prev = sync_added_sp(vs, pressed.drop_last());
        if has_note(vs, pressed.last() as int) {
            prev
        } else {
            prev.push(spawned_sp(pressed.last()))
        }
    }
}

/// One pool synchronization step: gates updated, missing voices spawned.
pub open spec fn sync_sp(vs: Seq<VoiceState>, pressed: Seq<u8>) -> Seq<VoiceState> {
    sync_updated_sp(vs, pressed) + sync_added_sp(vs, pressed)
}

/// The voice models after one sample step, keeping only the voices that
/// are not finished (a finished voice is idle with its gate released).
pub open spec fn survivors_sp(ms: Seq<VoiceModel>, p: SynthParams, sr: int) -> Seq<VoiceModel>
    decreases ms.len(),
{
    if ms.len() == 0 {
        Seq::empty()
    } else {
        let prev = survivors_sp(ms.drop_last(), p, sr);
        let m2 = voice_step_sp(ms.last(), p, sr).0;
        if m2.stage is Idle && !m2.gate {
            prev
        } else {
            prev.push(m2)
        }
    }
}

/// The additive mix of all voices' output samples for this step,
/// saturated into the equalizer's input range after each addition.
pub open spec fn mix_sp(ms: Seq<VoiceModel>, p: SynthParams, sr: int) -> int
    decreases ms.len(),
{
    if ms.len() == 0 {
        0
    } else {
        clamp_sp(
            mix_sp(ms.drop_last(), p, sr) + voice_step_sp(ms.last(), p, sr).1,
            -(MIX_MAX as int),
            MIX_MAX as int,
        )
    }
}

/// The models of a sequence of voices.
pub open spec fn models_of(vs: Seq<VoiceState>) -> Seq<VoiceModel> {
    vs.map(|i: int, v: VoiceState| v@)
}

/// The engine: all live voices, the output sample rate, and the equalizer.
pub struct SynthEngine {
    pub voices: Vec<VoiceState>,
    pub sample_rate: u32,
    pub eq_chain: EqChain,
}

/// A well-formed engine: voices well-formed and one per note, a valid
/// sample rate shared with the equalizer chain.
pub open spec fn engine_wf(e: SynthEngine) -> bool {
    &&& voices_wf(e.voices@)
    &&& distinct_notes(e.voices@)
    &&& chain_wf(e.eq_chain)
    &&& 1 <= e.sample_rate <= SR_MAX
    &&& e.eq_chain.sample_rate == e.sample_rate
}

impl SynthEngine {
    /// A fresh engine with no voices and an identity equalizer.
    pub fn new(sample_rate: u32) -> (r: SynthEngine)
        requires
            1 <= sample_rate <= SR_MAX,
        ensures
            engine_wf(r),
            r.voices@.len() == 0,
            r.sample_rate == sample_rate,
            crate::eq::unity_coeffs_sp(r.eq_chain.low.coeffs),
            crate::eq::unity_coeffs_sp(r.eq_chain.mid.coeffs),
            crate::eq::unity_coeffs_sp(r.eq_chain.high.coeffs),
            r.eq_chain.low.z1 == 0 && r.eq_chain.low.z2 == 0 && r.eq_chain.mid.z1 == 0
                && r.eq_chain.mid.z2 == 0 && r.eq_chain.high.z1 == 0 && r.eq_chain.high.z2 == 0,
    {
        SynthEngine { voices: Vec::new(), sample_rate, eq_chain: EqChain::new(sample_rate) }
    }

    /// How many voices are currently alive (sounding or in release tail).
    pub fn voice_count(&self) -> (r: usize)
        ensures
            r == self.voices@.len(),
    {
        self.voices.len()
    }

    /// Whether some voice is currently bound to `note`.
    pub fn has_voice(&self, note: u8) -> (r: bool)
        ensures
            r == has_note(self.voices@, note as int),
    {
        contains_note(&self.voices, note)
    }

    /// The envelope stage of the voice bound to `note`, if one exists.
    pub fn voice_stage(&self, note: u8) -> (r: Option<EnvStage>)
        ensures
            match r {
                Some(s) => exists|i: int|
                    0 <= i < self.voices@.len() && #[trigger] self.voices@[i].note == note
                        && self.voices@[i].stage == s,
                None => !has_note(self.voices@, note as int),
            },
    {
        let n = self.voices.len();
        let mut i: usize = 0;
        while i < n
            invariant
                i <= n == self.voices@.len(),
                forall|j: int| 0 <= j < i ==> #[trigger] self.voices@[j].note != note,
            decreases n - i,
        {
            if self.voices[i].note == note {
                return Some(self.voices[i].stage);
            }
            i = i + 1;
        }
        None
    }

    /// The envelope level of the voice bound to `note`, if one exists.
    pub fn voice_level(&self, note: u8) -> (r: Option<i64>)
        ensures
            match r {
                Some(l) => exists|i: int|
                    0 <= i < self.voices@.len() && #[trigger] self.voices@[i].note == note
                        && self.voices@[i].env_level == l,
                None => !has_note(self.voices@, note as int),
            },
    {
        let n = self.voices.len();
        let mut i: usize = 0;
        while i < n
            invariant
                i <= n == self.voices@.len(),
                forall|j: int| 0 <= j < i ==> #[trigger] self.voices@[j].note != note,
            decreases n - i,
        {
            if self.voices[i].note == note {
                return Some(self.voices[i].env_level);
            }
            i = i + 1;
        }
        None
    }

    /// Recompute the equalizer coefficients from the given parameters
    /// without touching any voice or any filter memory.
    pub fn update_eq(&mut self, params: &SynthParams)
        requires
            engine_wf(*old(self)),
        ensures
            engine_wf(*final(self)),
            final(self).voices == old(self).voices,
            final(self).sample_rate == old(self).sample_rate,
            final(self).eq_chain.low.z1 == old(self).eq_chain.low.z1,
            final(self).eq_chain.low.z2 == old(self).eq_chain.low.z2,
            final(self).eq_chain.mid.z1 == old(self).eq_chain.mid.z1,
            final(self).eq_chain.mid.z2 == old(self).eq_chain.mid.z2,
            final(self).eq_chain.high.z1 == old(self).eq_chain.high.z1,
            final(self).eq_chain.high.z2 == old(self).eq_chain.high.z2,
            final(self).eq_chain.low.coeffs == crate::eq::shelf_coeffs_sp(
                old(self).sample_rate as int,
                params.eq_low_freq_hz as int,
                params.eq_low_gain_db as int,
                false,
            ),
            final(self).eq_chain.mid.coeffs == crate::eq::peaking_coeffs_sp(
                old(self).sample_rate as int,
                params.eq_mid_freq_hz as int,
                params.eq_mid_q as int,
                params.eq_mid_gain_db as int,
            ),
            final(self).eq_chain.high.coeffs == crate::eq::shelf_coeffs_sp(
                old(self).sample_rate as int,
                params.eq_high_freq_hz as int,
                params.eq_high_gain_db as int,
                true,
            ),
            params.eq_low_gain_db == 0 ==> crate::eq::unity_coeffs_sp(
                final(self).eq_chain.low.coeffs,
            ),
            params.eq_mid_gain_db == 0 ==> crate::eq::unity_coeffs_sp(
                final(self).eq_chain.mid.coeffs,
            ),
            params.eq_high_gain_db == 0 ==> crate::eq::unity_coeffs_sp(
                final(self).eq_chain.high.coeffs,
            ),
    {
        self.eq_chain.update(params);
    }

    /// Synchronize the pool against the held-note list: set every voice's
    /// gate to whether its note is still held, and spawn a gated-on voice
    /// for every held note that has none (see `sync_sp`).
    fn sync_voices(&mut self, pressed: &Vec<u8>)
        requires
            engine_wf(*old(self)),
            pressed_wf(pressed@),
        ensures
            final(self).voices@ == sync_sp(old(self).voices@, pressed@),
            final(self).sample_rate == old(self).sample_rate,
            final(self).eq_chain == old(self).eq_chain,
            engine_wf(*final(self)),
    {
        let ghost vs0 = self.voices@;
        let n0 = self.voices.len();
        let mut synced: Vec<VoiceState> = Vec::new();
        let mut i: usize = 0;
        while i < n0
            invariant
                i <= n0 == vs0.len(),
                self.voices@ == vs0,
                synced@.len() == i,
                forall|j: int| 0 <= j < i ==> synced@[j] == gated_sp(vs0[j], pressed@.contains(
                    vs0[j].note,
                )),
                voices_wf(vs0),
            decreases n0 - i,
        {
            let v = self.voices[i];
            let g = contains_pressed(pressed, v.note);
            let mut v2 = v;
            v2.set_gate(g);
            synced.push(v2);
            i = i + 1;
        }
        proof {
            assert(synced@ =~= sync_updated_sp(vs0, pressed@));
        }
        self.voices = synced;
        let ghost updated = sync_updated_sp(vs0, pressed@);
        let np = pressed.len();
        let mut k: usize = 0;
        while k < np
            invariant
                k <= np == pressed@.len(),
                pressed_wf(pressed@),
                voices_wf(vs0),
                distinct_notes(vs0),
                self.voices@ == updated + sync_added_sp(vs0, pressed@.take(k as int)),
                updated == sync_updated_sp(vs0, pressed@),
                self.sample_rate == old(self).sample_rate,
                self.eq_chain == old(self).eq_chain,
            decreases np - k,
        {
            let note = pressed[k];
            proof {
                assert(forall|i: int|
                    0 <= i < pressed@.take(k as int).len() ==> #[trigger] pressed@.take(
                        k as int,
                    )[i] < 128);
                lemma_sync_added_props(vs0, pressed@.take(k as int));
                lemma_updated_same_notes(vs0, pressed@);
            }
            let present = contains_note(&self.voices, note);
            proof {
                let taken = pressed@.take(k as int);
                let added = sync_added_sp(vs0, taken);
                // The note under inspection is strictly greater than every
                // note already added, so scanning the live pool answers the
                // same as scanning the pool before synchronization.
                assert forall|j: int| 0 <= j < added.len() implies #[trigger] added[j].note
                    != note by {
                    let idx = choose|t: int|
                        0 <= t < taken.len() && #[trigger] taken[t] == added[j].note;
                    assert(pressed@[idx] < pressed@[k as int]);
                }
                if present {
                    assert(has_note(updated + added, note as int));
                    let w = choose|t: int|
                        0 <= t < (updated + added).len() && #[trigger] (updated + added)[t].note
                            as int == note as int;
                    if w < updated.len() {
                        assert(updated[w].note == vs0[w].note);
                        assert(has_note(vs0, note as int));
                    } else {
                        assert(added[w - updated.len()].note == note);
                        assert(false);
                    }
                } else {
                    if has_note(vs0, note as int) {
                        let w = choose|t: int|
                            0 <= t < vs0.len() && #[trigger] vs0[t].note as int == note as int;
                        assert(updated[w].note == note);
                        assert((updated + added)[w].note as int == note as int);
                        assert(has_note(updated + added, note as int));
                    }
                }
                assert(present == has_note(vs0, note as int));
                assert(pressed@.take(k as int + 1).drop_last() =~= pressed@.take(k as int));
                assert(pressed@.take(k as int + 1).last() == note);
            }
            if !present {
                let nv = spawn_voice(note);
                self.voices.push(nv);
            }
            k = k + 1;
        }
        proof {
            assert(pressed@.take(np as int) =~= pressed@);
            lemma_sync_added_props(vs0, pressed@);
            lemma_updated_same_notes(vs0, pressed@);
            let added = sync_added_sp(vs0, pressed@);
            assert forall|i2: int| 0 <= i2 < self.voices@.len() implies voice_wf(
                #[trigger] self.voices@[i2]@,
            ) by {
                if i2 < updated.len() {
                    assert(voice_wf(vs0[i2]@));
                    assert(self.voices@[i2] == gated_sp(vs0[i2], pressed@.contains(vs0[i2].note)));
                } else {
                    assert(self.voices@[i2] == added[i2 - updated.len()]);
                }
            }
            assert forall|i2: int, j2: int|
                0 <= i2 < j2 < self.voices@.len() implies self.voices@[i2].note
                != self.voices@[j2].note by {
                lemma_sync_distinct_pointwise(vs0, pressed@, i2, j2);
            }
        }
    }

    /// Render one output sample from a snapshot: synchronize the pool,
    /// advance and mix every voice, retire finished voices, and run the
    /// mix through the equalizer chain (see `sync_sp`, `mix_sp`,
    /// `survivors_sp` and `chain_step_sp`).
    pub fn next_sample(&mut self, snapshot: &SynthSnapshot) -> (r: i64)
        requires
            engine_wf(*old(self)),
            pressed_wf(snapshot.pressed_notes@),
        ensures
            ({
                let synced = models_of(sync_sp(old(self).voices@, snapshot.pressed_notes@));
                let mix = mix_sp(synced, snapshot.params, old(self).sample_rate as int);
                let t = chain_step_sp(
                    old(self).eq_chain.low,
                    old(self).eq_chain.mid,
                    old(self).eq_chain.high,
                    mix,
                );
                &&& models_of(final(self).voices@) == survivors_sp(
                    synced,
                    snapshot.params,
                    old(self).sample_rate as int,
                )
                &&& r as int == t.0
                &&& final(self).eq_chain.low.z1 as int == t.1 && final(self).eq_chain.low.z2 as int
                    == t.2
                &&& final(self).eq_chain.mid.z1 as int == t.3 && final(self).eq_chain.mid.z2 as int
                    == t.4
                &&& final(self).eq_chain.high.z1 as int == t.5
                &&& final(self).eq_chain.high.z2 as int == t.6
            }),
            final(self).sample_rate == old(self).sample_rate,
            final(self).eq_chain.low.coeffs == old(self).eq_chain.low.coeffs,
            final(self).eq_chain.mid.coeffs == old(self).eq_chain.mid.coeffs,
            final(self).eq_chain.high.coeffs == old(self).eq_chain.high.coeffs,
            engine_wf(*final(self)),
            -EQ_Y_MAX <= r <= EQ_Y_MAX,
            forall|k: int|
                0 <= k < snapshot.pressed_notes@.len() ==> has_note(
                    final(self).voices@,
                    #[trigger] snapshot.pressed_notes@[k] as int,
                ),
    {
        self.sync_voices(&snapshot.pressed_notes);
        let ghost synced_states = self.voices@;
        let ghost synced = models_of(self.voices@);
        let sr = self.sample_rate;
        let n = self.voices.len();
        let mut kept: Vec<VoiceState> = Vec::new();
        let mut mix: i64 = 0;
        let mut i: usize = 0;
        while i < n
            invariant
                i <= n == synced_states.len(),
                self.voices@ == synced_states,
                synced == models_of(synced_states),
                voices_wf(synced_states),
                1 <= sr <= SR_MAX,
                models_of(kept@) == survivors_sp(synced.take(i as int), snapshot.params, sr as int),
                mix as int == mix_sp(synced.take(i as int), snapshot.params, sr as int),
                -MIX_MAX <= mix <= MIX_MAX,
                forall|j: int| 0 <= j < kept@.len() ==> voice_wf(#[trigger] kept@[j]@),
                forall|j1: int, j2: int|
                    0 <= j1 < j2 < kept@.len() ==> kept@[j1].note != kept@[j2].note,
                forall|j: int|
                    0 <= j < kept@.len() ==> exists|t: int|
                        0 <= t < i && #[trigger] kept@[j].note == synced_states[t].note,
                forall|t: int|
                    0 <= t < i && synced_states[t].gate ==> has_note(
                        kept@,
                        #[trigger] synced_states[t].note as int,
                    ),
                distinct_notes(synced_states),
            decreases n - i,
        {
            let mut v = self.voices[i];
            proof {
                assert(voice_wf(synced_states[i as int]@));
            }
            let s = v.next_sample(&snapshot.params, sr);
            let newmix = clamp_fp(mix + s, -MIX_MAX, MIX_MAX);
            proof {
                assert(synced.take(i as int + 1).drop_last() =~= synced.take(i as int));
                assert(synced.take(i as int + 1).last() == synced_states[i as int]@);
            }
            proof {
                // A held voice is never finished, so it always survives.
                assert(v.gate == synced_states[i as int].gate);
            }
            if !(matches!(v.stage, EnvStage::Idle) && !v.gate) {
                proof {
                    // The stepped voice keeps its note, so distinctness
                    // among the kept voices is preserved.
                    assert(v.note == synced_states[i as int].note);
                    assert forall|j: int| 0 <= j < kept@.len() implies #[trigger] kept@[j].note
                        != v.note by {
                        let t = choose|t: int|
                            0 <= t < i && #[trigger] kept@[j].note == synced_states[t].note;
                    }
                    assert(models_of(kept@.push(v)) =~= models_of(kept@).push(v@));
                }
                let ghost kept_pre = kept@;
                kept.push(v);
                proof {
                    assert(kept@ == kept_pre.push(v));
                    assert forall|t: int|
                        0 <= t < i + 1 && synced_states[t].gate implies has_note(
                        kept@,
                        #[trigger] synced_states[t].note as int,
                    ) by {
                        if t < i {
                            assert(has_note(kept_pre, synced_states[t].note as int));
                            let w = choose|w: int|
                                0 <= w < kept_pre.len() && #[trigger] kept_pre[w].note as int
                                    == synced_states[t].note as int;
                            assert(kept@[w] == kept_pre[w]);
                        } else {
                            assert(kept@[kept_pre.len() as int] == v);
                            assert(v.note == synced_states[i as int].note);
                        }
                    }
                }
            }
            mix = newmix;
            i = i + 1;
        }
        proof {
            assert(synced.take(n as int) =~= synced);
            assert forall|k: int|
                0 <= k < snapshot.pressed_notes@.len() implies has_note(
                kept@,
                #[trigger] snapshot.pressed_notes@[k] as int,
            ) by {
                lemma_sync_covers_pressed(old(self).voices@, snapshot.pressed_notes@, k);
                let w = choose|w: int|
                    0 <= w < synced_states.len() && #[trigger] synced_states[w].note
                        == snapshot.pressed_notes@[k] && synced_states[w].gate;
            }
        }
        self.voices = kept;
        self.eq_chain.process(mix)
    }
}

/// Whether some voice in the vector is bound to `note`.
fn contains_note(vs: &Vec<VoiceState>, note: u8) -> (r: bool)
    ensures
        r == has_note(vs@, note as int),
{
    let n = vs.len();
    let mut i: usize = 0;
    while i < n
        invariant
            i <= n == vs@.len(),
            forall|j: int| 0 <= j < i ==> #[trigger] vs@[j].note != note,
        decreases n - i,
    {
        if vs[i].note == note {
            return true;
        }
        i = i + 1;
    }
    false
}

/// Whether the held-note list contains `note`.
fn contains_pressed(pressed: &Vec<u8>, note: u8) -> (r: bool)
    ensures
        r == pressed@.contains(note),
{
    let n = pressed.len();
    let mut i: usize = 0;
    while i < n
        invariant
            i <= n == pressed@.len(),
            forall|j: int| 0 <= j < i ==> #[trigger] pressed@[j] != note,
        decreases n - i,
    {
        if pressed[i] == note {
            return true;
        }
        i = i + 1;
    }
    false
}

/// A fresh voice gated on for a newly held note: it begins in Attack.
fn spawn_voice(note: u8) -> (r: VoiceState)
    requires
        note < 128,
    ensures
        r == spawned_sp(note),
        voice_wf(r@),
{
    let mut v = VoiceState::new(note);
    v.set_gate(true);
    v
}

/// Every spawned voice is for a note of the list that had no voice, it
/// begins in Attack with its gate on, and the spawned notes are exactly
/// those held notes that were missing from the pool.
pub proof fn lemma_sync_added_props(vs: Seq<VoiceState>, pressed: Seq<u8>)
    requires
        forall|i: int| 0 <= i < pressed.len() ==> #[trigger] pressed[i] < 128,
    ensures
        forall|j: int|
            0 <= j < sync_added_sp(vs, pressed).len() ==> {
                let a = #[trigger] sync_added_sp(vs, pressed)[j];
                &&& pressed.contains(a.note)
                &&& !has_note(vs, a.note as int)
                &&& a.stage is Attack
                &&& a.gate
                &&& voice_wf(a@)
                &&& a == spawned_sp(a.note)
            },
        forall|k: int|
            0 <= k < pressed.len() && !has_note(vs, pressed[k] as int) ==> has_note(
                sync_added_sp(vs, pressed),
                #[trigger] pressed[k] as int,
            ),
    decreases pressed.len(),
{
    if pressed.len() == 0 {
    } else {
        assert(forall|i: int|
            0 <= i < pressed.drop_last().len() ==> #[trigger] pressed.drop_last()[i] < 128);
        lemma_sync_added_props(vs, pressed.drop_last());
        let prev = sync_added_sp(vs, pressed.drop_last());
        let added = sync_added_sp(vs, pressed);
        assert forall|j: int| 0 <= j < added.len() implies {
            let a = #[trigger] added[j];
            &&& pressed.contains(a.note)
            &&& !has_note(vs, a.note as int)
            &&& a.stage is Attack
            &&& a.gate
            &&& voice_wf(a@)
            &&& a == spawned_sp(a.note)
        } by {
            if j < prev.len() {
                let a = prev[j];
                let w = choose|t: int|
                    0 <= t < pressed.drop_last().len() && #[trigger] pressed.drop_last()[t]
                        == a.note;
                assert(pressed[w] == a.note);
            } else {
                let a = added[j];
                assert(a == spawned_sp(pressed.last()));
                assert(pressed[pressed.len() - 1] == a.note);
                let sv = spawned_sp(pressed.last());
                assert(0 <= (pressed.last() as int) * 1104607 && (pressed.last() as int) * 1104607
                    < 4294967296) by (nonlinear_arith)
                    requires
                        (pressed.last() as int) < 256,
                ;
                assert(voice_wf(sv@));
            }
        }
        assert forall|k: int|
            0 <= k < pressed.len() && !has_note(vs, pressed[k] as int) implies has_note(
            added,
            #[trigger] pressed[k] as int,
        ) by {
            if k < pressed.len() - 1 {
                assert(pressed.drop_last()[k] == pressed[k]);
                assert(has_note(prev, pressed[k] as int));
                let w = choose|t: int|
                    0 <= t < prev.len() && #[trigger] prev[t].note as int == pressed[k] as int;
                assert(added[w] == prev[w]);
            } else {
                assert(added[added.len() - 1] == spawned_sp(pressed.last()));
            }
        }
    }
}

/// Updating gates changes no voice's note.
pub proof fn lemma_updated_same_notes(vs: Seq<VoiceState>, pressed: Seq<u8>)
    ensures
        sync_updated_sp(vs, pressed).len() == vs.len(),
        forall|i: int|
            0 <= i < vs.len() ==> #[trigger] sync_updated_sp(vs, pressed)[i].note == vs[i].note,
{
}

/// One synchronization step keeps the pool's notes distinct: pressing a
/// note twice can never create two voices for it.
pub proof fn lemma_sync_distinct_pointwise(vs: Seq<VoiceState>, pressed: Seq<u8>, i: int, j: int)
    requires
        distinct_notes(vs),
        pressed_wf(pressed),
        0 <= i < j < sync_sp(vs, pressed).len(),
    ensures
        sync_sp(vs, pressed)[i].note != sync_sp(vs, pressed)[j].note,
{
    let updated = sync_updated_sp(vs, pressed);
    let added = sync_added_sp(vs, pressed);
    lemma_sync_added_props(vs, pressed);
    lemma_updated_same_notes(vs, pressed);
    lemma_added_increasing(vs, pressed);
    if j < updated.len() {
    } else if i < updated.len() {
        let a = added[j - updated.len()];
        assert(!has_note(vs, a.note as int));
        assert(updated[i].note == vs[i].note);
        if vs[i].note == a.note {
            assert(has_note(vs, a.note as int));
        }
    } else {
    }
}

/// The spawned voices carry strictly increasing notes (the held-note list
/// itself is strictly increasing).
pub proof fn lemma_added_increasing(vs: Seq<VoiceState>, pressed: Seq<u8>)
    requires
        pressed_wf(pressed),
    ensures
        forall|i: int, j: int|
            0 <= i < j < sync_added_sp(vs, pressed).len() ==> #[trigger] sync_added_sp(
                vs,
                pressed,
            )[i].note < #[trigger] sync_added_sp(vs, pressed)[j].note,
    decreases pressed.len(),
{
    if pressed.len() == 0 {
    } else {
        assert(pressed_wf(pressed.drop_last()));
        lemma_added_increasing(vs, pressed.drop_last());
        lemma_sync_added_props(vs, pressed.drop_last());
        let prev = sync_added_sp(vs, pressed.drop_last());
        let added = sync_added_sp(vs, pressed);
        if !has_note(vs, pressed.last() as int) {
            assert forall|i: int, j: int|
                0 <= i < j < added.len() implies #[trigger] added[i].note
                < #[trigger] added[j].note by {
                if j < prev.len() {
                } else {
                    let a = prev[i];
                    let w = choose|t: int|
                        0 <= t < pressed.drop_last().len() && #[trigger] pressed.drop_last()[t]
                            == a.note;
                    assert(pressed[w] == a.note);
                    assert(pressed[w] < pressed[pressed.len() - 1]);
                }
            }
        }
    }
}

/// After one synchronization step every held note owns a voice, and a
/// note that had no voice owns one that begins in Attack with its gate
/// on.
pub proof fn lemma_sync_covers_pressed(vs: Seq<VoiceState>, pressed: Seq<u8>, k: int)
    requires
        pressed_wf(pressed),
        0 <= k < pressed.len(),
    ensures
        has_note(sync_sp(vs, pressed), pressed[k] as int),
        exists|i: int|
            0 <= i < sync_sp(vs, pressed).len() && #[trigger] sync_sp(vs, pressed)[i].note
                == pressed[k] && sync_sp(vs, pressed)[i].gate,
        !has_note(vs, pressed[k] as int) ==> exists|i: int|
            0 <= i < sync_sp(vs, pressed).len() && #[trigger] sync_sp(vs, pressed)[i].note
                == pressed[k] && sync_sp(vs, pressed)[i].stage is Attack && sync_sp(
                vs,
                pressed,
            )[i].gate,
{
    let updated = sync_updated_sp(vs, pressed);
    let added = sync_added_sp(vs, pressed);
    let both = sync_sp(vs, pressed);
    lemma_sync_added_props(vs, pressed);
    lemma_updated_same_notes(vs, pressed);
    if has_note(vs, pressed[k] as int) {
        let w = choose|t: int|
            0 <= t < vs.len() && #[trigger] vs[t].note as int == pressed[k] as int;
        assert(both[w].note == vs[w].note);
        assert(pressed.contains(vs[w].note)) by {
            assert(pressed[k] == vs[w].note);
        }
        assert(both[w].gate);
    } else {
        assert(has_note(added, pressed[k] as int));
        let w = choose|t: int|
            0 <= t < added.len() && #[trigger] added[t].note as int == pressed[k] as int;
        assert(both[updated.len() + w] == added[w]);
        assert(added[w] == spawned_sp(added[w].note));
        assert(both[updated.len() + w].stage is Attack && both[updated.len() + w].gate);
    }
}

} // verus!
