//! The shared parameter/note model and its snapshot.
//!
//! The held-note set is kept as a strictly ascending list of MIDI note
//! numbers, so iteration order is deterministic and the representation is
//! canonical: two lists holding the same notes are equal
//! (`lemma_sorted_unique_canonical`). Press and release are idempotent
//! total operations over valid note numbers; a snapshot is an independent
//! copy that later mutation of the model cannot touch.

use vstd::prelude::*;

use crate::params::SynthParams;

verus! {

/// A valid held-note list: strictly ascending MIDI notes below 128.
pub open spec fn pressed_wf(ps: Seq<u8>) -> bool {
    &&& forall|i: int, j: int| 0 <= i < j < ps.len() ==> ps[i] < ps[j]
    &&& forall|i: int| 0 <= i < ps.len() ==> ps[i] < 128
}

/// What pressing `n` does to the held set: `n` joins it, nothing else
/// changes.
pub open spec fn press_post(s: Seq<u8>, n: u8, t: Seq<u8>) -> bool {
    &&& pressed_wf(t)
    &&& forall|m: u8| t.contains(m) <==> (s.contains(m) || m == n)
}

/// What releasing `n` does to the held set: `n` leaves it, nothing else
/// changes.
pub open spec fn release_post(s: Seq<u8>, n: u8, t: Seq<u8>) -> bool {
    &&& pressed_wf(t)
    &&& forall|m: u8| t.contains(m) <==> (s.contains(m) && m != n)
}

/// The shared model: synthesis parameters plus the held-note list. The
/// UI side mutates it under its lock; the audio side only reads it
/// through `snapshot`.
pub struct SynthShared {
    /// The synthesis parameters; mutated directly by the owner.
    pub params: SynthParams,
    /// The held notes, strictly ascending.
    pub pressed_notes: Vec<u8>,
}

/// A well-formed model: its note list is strictly ascending and valid.
pub open spec fn shared_wf(s: SynthShared) -> bool {
    pressed_wf(s.pressed_notes@)
}

/// An immutable, independently owned copy of the model, taken under the
/// lock and consumed by the audio thread without further locking.
pub struct SynthSnapshot {
    pub params: SynthParams,
    pub pressed_notes: Vec<u8>,
}

impl SynthShared {
    /// A model with the given parameters and no held notes.
    pub fn new_with_params(params: SynthParams) -> (r: SynthShared)
        ensures
            r.params == params,
            r.pressed_notes@.len() == 0,
            shared_wf(r),
    {
        SynthShared { params, pressed_notes: Vec::new() }
    }

    /// Idempotently add a note to the held set.
    pub fn press_note(&mut self, note: u8)
        requires
            shared_wf(*old(self)),
            note < 128,
        ensures
            shared_wf(*final(self)),
            press_post(old(self).pressed_notes@, note, final(self).pressed_notes@),
            final(self).params == old(self).params,
    {
        let n = self.pressed_notes.len();
        let mut i: usize = 0;
        while i < n && self.pressed_notes[i] < note
            invariant
                i <= n == self.pressed_notes@.len(),
                forall|j: int| 0 <= j < i ==> #[trigger] self.pressed_notes@[j] < note,
                pressed_wf(self.pressed_notes@),
            decreases n - i,
        {
            i = i + 1;
        }
        if i < n && self.pressed_notes[i] == note {
            proof {
                assert(self.pressed_notes@.contains(note));
            }
            return ;
        }
        let ghost s0 = self.pressed_notes@;
        proof {
            assert(forall|j: int| 0 <= j < i ==> #[trigger] s0[j] < note);
            assert(forall|j: int| i <= j < s0.len() ==> note < #[trigger] s0[j]) by {
                if i < s0.len() {
                    assert(s0[i as int] >= note);
                    assert(s0[i as int] != note);
                    assert(forall|j: int|
                        i < j < s0.len() ==> note < s0[i as int] < #[trigger] s0[j]);
                }
            }
        }
        self.pressed_notes.insert(i, note);
        proof {
            let t = self.pressed_notes@;
            assert(t == s0.insert(i as int, note));
            assert forall|a: int, b: int| 0 <= a < b < t.len() implies t[a] < t[b] by {}
            assert forall|m: u8| t.contains(m) implies (s0.contains(m) || m == note) by {
                let w = choose|w: int| 0 <= w < t.len() && t[w] == m;
                if w < i {
                    assert(s0[w] == m);
                } else if w > i {
                    assert(s0[w - 1] == m);
                }
            }
            assert forall|m: u8| (s0.contains(m) || m == note) implies t.contains(m) by {
                if m == note {
                    assert(t[i as int] == note);
                } else {
                    let w = choose|w: int| 0 <= w < s0.len() && s0[w] == m;
                    if w < i {
                        assert(t[w] == m);
                    } else {
                        assert(t[w + 1] == m);
                    }
                }
            }
        }
    }

    /// Idempotently remove a note from the held set.
    pub fn release_note(&mut self, note: u8)
        requires
            shared_wf(*old(self)),
        ensures
            shared_wf(*final(self)),
            release_post(old(self).pressed_notes@, note, final(self).pressed_notes@),
            final(self).params == old(self).params,
    {
        let n = self.pressed_notes.len();
        let mut i: usize = 0;
        while i < n && self.pressed_notes[i] != note
            invariant
                i <= n == self.pressed_notes@.len(),
                forall|j: int| 0 <= j < i ==> #[trigger] self.pressed_notes@[j] != note,
                pressed_wf(self.pressed_notes@),
            decreases n - i,
        {
            i = i + 1;
        }
        if i < n {
            {
                let ghost s0 = self.pressed_notes@;
                self.pressed_notes.remove(i);
                proof {
                    assert(s0[i as int] == note);
                    let t = self.pressed_notes@;
                    assert(t == s0.remove(i as int));
                    assert(t.len() == s0.len() - 1);
                    assert(forall|j: int| 0 <= j < i ==> t[j] == s0[j]);
                    assert(forall|j: int| i <= j < s0.len() - 1 ==> t[j] == s0[j + 1]);
                    assert forall|a: int, b: int| 0 <= a < b < t.len() implies t[a] < t[b] by {
                        if a < i && b >= i {
                            assert(t[a] == s0[a] && t[b] == s0[b + 1]);
                        } else if a >= i {
                            assert(t[a] == s0[a + 1] && t[b] == s0[b + 1]);
                        }
                    }
                    assert(forall|j: int| 0 <= j < t.len() ==> t[j] < 128);
                    assert forall|m: u8| t.contains(m) implies (s0.contains(m) && m != note) by {
                        let w = choose|w: int| 0 <= w < t.len() && t[w] == m;
                        if w < i {
                            assert(s0[w] == m);
                            assert(w < i ==> s0[w] != note);
                        } else {
                            assert(s0[w + 1] == m);
                            assert(s0[i as int] == note);
                            assert(s0[w + 1] > s0[i as int]);
                        }
                    }
                    assert forall|m: u8| (s0.contains(m) && m != note) implies t.contains(m) by {
                        let w = choose|w: int| 0 <= w < s0.len() && s0[w] == m;
                        if w < i {
                            assert(t[w] == m);
                        } else {
                            assert(w != i);
                            assert(t[w - 1] == m);
                        }
                    }
                }
            }
            return ;
        }
        proof {
            assert(!self.pressed_notes@.contains(note));
        }
    }

    /// Whether a note is currently held.
    pub fn is_pressed(&self, note: u8) -> (r: bool)
        ensures
            r == self.pressed_notes@.contains(note),
    {
        let n = self.pressed_notes.len();
        let mut i: usize = 0;
        while i < n
            invariant
                i <= n == self.pressed_notes@.len(),
                forall|j: int| 0 <= j < i ==> #[trigger] self.pressed_notes@[j] != note,
            decreases n - i,
        {
            if self.pressed_notes[i] == note {
                return true;
            }
            i = i + 1;
        }
        false
    }

    /// An independent copy of the parameters and the held-note list at
    /// the moment of the call: mutating the model afterwards cannot
    /// affect a snapshot already taken.
    pub fn snapshot(&self) -> (r: SynthSnapshot)
        requires
            shared_wf(*self),
        ensures
            r.params == self.params,
            r.pressed_notes@ == self.pressed_notes@,
            pressed_wf(r.pressed_notes@),
    {
        let n = self.pressed_notes.len();
        let mut copied: Vec<u8> = Vec::new();
        let mut i: usize = 0;
        while i < n
            invariant
                i <= n == self.pressed_notes@.len(),
                copied@ == self.pressed_notes@.take(i as int),
            decreases n - i,
        {
            copied.push(self.pressed_notes[i]);
            proof {
                assert(copied@ =~= self.pressed_notes@.take(i as int + 1));
            }
            i = i + 1;
        }
        proof {
            assert(self.pressed_notes@.take(n as int) =~= self.pressed_notes@);
        }
        SynthSnapshot { params: self.params, pressed_notes: copied }
    }
}

impl Default for SynthShared {
    /// A model with the factory patch and no held notes.
    fn default() -> (r: Self)
        ensures
            r.params == crate::params::default_params_sp(),
            r.pressed_notes@.len() == 0,
            shared_wf(r),
    {
        SynthShared { params: Default::default(), pressed_notes: Vec::new() }
    }
}

/// The ascending-unique note list is canonical: two valid lists holding
/// exactly the same notes are the same list.
pub proof fn lemma_sorted_unique_canonical(s1: Seq<u8>, s2: Seq<u8>)
    requires
        pressed_wf(s1),
        pressed_wf(s2),
        forall|m: u8| s1.contains(m) <==> s2.contains(m),
    ensures
        s1 == s2,
    decreases s1.len(),
{
    if s1.len() == 0 {
        if s2.len() > 0 {
            assert(s2.contains(s2[0]));
        }
        assert(s1 =~= s2);
    } else {
        assert(s1.contains(s1[0]));
        assert(s2.contains(s1[0]));
        assert(s2.len() > 0);
        assert(s2.contains(s2[0]));
        assert(s1.contains(s2[0]));
        // Both heads are the minimum of the same set, so they are equal.
        assert(s2[0] == s1[0]) by {
            let w1 = choose|w: int| 0 <= w < s2.len() && #[trigger] s2[w] == s1[0];
            if w1 > 0 {
                assert(s2[0] < s2[w1]);
            }
            let w2 = choose|w: int| 0 <= w < s1.len() && #[trigger] s1[w] == s2[0];
            if w2 > 0 {
                assert(s1[0] < s1[w2]);
            }
        }
        let t1 = s1.drop_first();
        let t2 = s2.drop_first();
        assert forall|m: u8| t1.contains(m) implies t2.contains(m) by {
            lemma_tail_membership(s1, s2, m);
        }
        assert forall|m: u8| t2.contains(m) implies t1.contains(m) by {
            lemma_tail_membership(s2, s1, m);
        }
        assert(pressed_wf(t1)) by {
            assert(forall|i: int| 0 <= i < t1.len() ==> t1[i] == s1[i + 1]);
        }
        assert(pressed_wf(t2)) by {
            assert(forall|i: int| 0 <= i < t2.len() ==> t2[i] == s2[i + 1]);
        }
        lemma_sorted_unique_canonical(t1, t2);
        assert(s1 =~= s2) by {
            assert(forall|i: int| 1 <= i < s1.len() ==> s1[i] == t1[i - 1]);
            assert(forall|i: int| 1 <= i < s2.len() ==> s2[i] == t2[i - 1]);
        }
    }
}

/// A note in one list's tail is in the other list's tail, given equal
/// membership and equal heads.
proof fn lemma_tail_membership(s1: Seq<u8>, s2: Seq<u8>, m: u8)
    requires
        pressed_wf(s1),
        pressed_wf(s2),
        forall|x: u8| s1.contains(x) <==> s2.contains(x),
        s1.len() > 0,
        s2.len() > 0,
        s1[0] == s2[0],
        s1.drop_first().contains(m),
    ensures
        s2.drop_first().contains(m),
{
    let t1 = s1.drop_first();
    let w = choose|w: int| 0 <= w < t1.len() && t1[w] == m;
    assert(s1[w + 1] == m);
    assert(s1[0] < m);
    assert(s1.contains(m));
    assert(s2.contains(m));
    let v = choose|v: int| 0 <= v < s2.len() && s2[v] == m;
    assert(v != 0);
    assert(s2.drop_first()[v - 1] == m);
}

/// Pressing a note that is already held changes nothing: two presses in
/// a row leave exactly the state the first press produced, so the pool
/// can never see two copies of the note.
pub proof fn lemma_press_idempotent(s: Seq<u8>, n: u8, t1: Seq<u8>, t2: Seq<u8>)
    requires
        press_post(s, n, t1),
        press_post(t1, n, t2),
    ensures
        t2 == t1,
{
    assert(t1.contains(n));
    lemma_sorted_unique_canonical(t2, t1);
}

/// A press followed by a release of the same note leaves the note absent
/// from the held set; if the note was not held before, the set returns
/// to exactly its old value.
pub proof fn lemma_press_release_round_trip(s: Seq<u8>, n: u8, t1: Seq<u8>, t2: Seq<u8>)
    requires
        pressed_wf(s),
        press_post(s, n, t1),
        release_post(t1, n, t2),
    ensures
        !t2.contains(n),
        forall|m: u8| m != n ==> (t2.contains(m) <==> s.contains(m)),
        !s.contains(n) ==> t2 == s,
{
    if !s.contains(n) {
        lemma_sorted_unique_canonical(t2, s);
    }
}

} // verus!
