//! A root note and the intervals of its degrees.

use crate::music::{Chord, Interval, Note};
use vstd::prelude::*;

verus! {

/// A root note and the intervals that lead from it to each degree.
#[derive(Debug, Clone)]
pub struct Scale {
    pub root: Note,
    pub intervals: Vec<Interval>,
}

/// Intervals of the major scale.
pub open spec fn major_intervals() -> Seq<Interval> {
    seq![
        Interval::Unison,
        Interval::MajorSecond,
        Interval::MajorThird,
        Interval::Fourth,
        Interval::Fifth,
        Interval::MajorSixth,
        Interval::MajorSeventh,
    ]
}

/// Intervals of the natural minor scale.
pub open spec fn minor_intervals() -> Seq<Interval> {
    seq![
        Interval::Unison,
        Interval::MajorSecond,
        Interval::MinorThird,
        Interval::Fourth,
        Interval::Fifth,
        Interval::MinorSixth,
        Interval::MinorSeventh,
    ]
}

/// Intervals of the harmonic minor scale.
pub open spec fn minor_harmonic_intervals() -> Seq<Interval> {
    seq![
        Interval::Unison,
        Interval::MajorSecond,
        Interval::MinorThird,
        Interval::Fourth,
        Interval::Fifth,
        Interval::MinorSixth,
        Interval::MajorSeventh,
    ]
}

/// The semitones of the intervals over two octaves: each interval as it is, then
/// each of them again an octave higher.
pub open spec fn two_octaves(intervals: Seq<Interval>) -> Seq<int> {
    Seq::new(
        2 * intervals.len(),
        |i: int|
            if i < intervals.len() {
                intervals[i].semitones()
            } else {
                intervals[i - intervals.len()].semitones() + 12
            },
    )
}

/// Semitones above the root of the `k`-th note that stepping yields: the walk
/// starts at `start`, advances by `step`, and goes round the two octaves
/// without end.
pub open spec fn stepped(intervals: Seq<Interval>, start: int, step: int, k: int) -> int {
    two_octaves(intervals)[(start + k * step) % (2 * intervals.len() as int)]
}

/// The tokens of the notes, with a comma between one and the next.
pub open spec fn joined(notes: Seq<Note>) -> Seq<char>
    decreases notes.len(),
{
    if notes.len() == 0 {
        Seq::empty()
    } else if notes.len() == 1 {
        notes[0].token()
    } else {
        joined(notes.drop_last()) + seq![','] + notes.last().token()
    }
}

impl Scale {
    /// Whether every note that `length` steps yield keeps its octave within 255.
    pub open spec fn can_build(self, start: int, step: int, length: int) -> bool {
        self.intervals@.len() > 0 ==> forall|k: int|
            0 <= k < length ==> self.root.can_shift(
                #[trigger] stepped(self.intervals@, start, step, k),
            )
    }

    /// The notes that `length` steps yield; none where the scale has no interval.
    pub open spec fn built(self, start: int, step: int, length: int) -> Seq<Note> {
        if self.intervals@.len() == 0 {
            Seq::empty()
        } else {
            Seq::new(
                length as nat,
                |k: int| self.root.shifted(stepped(self.intervals@, start, step, k)),
            )
        }
    }

    /// Whether every degree of the scale keeps its octave within 255.
    pub open spec fn can_list(self) -> bool {
        forall|i: int|
            0 <= i < self.intervals@.len() ==> self.root.can_shift(
                (#[trigger] self.intervals@[i]).semitones(),
            )
    }

    /// The note of each degree, in the order of the intervals.
    pub open spec fn degrees(self) -> Seq<Note> {
        Seq::new(self.intervals@.len(), |i: int| self.root.shifted(self.intervals@[i].semitones()))
    }

    pub fn new(root: Note, intervals: Vec<Interval>) -> (r: Scale)
        ensures
            r.root == root,
            r.intervals == intervals,
    {
        Scale { root, intervals }
    }

    /// The major scale on a root.
    pub fn major(root: Note) -> (r: Scale)
        ensures
            r.root == root,
            r.intervals@ == major_intervals(),
    {
        let intervals = vec![
            Interval::Unison,
            Interval::MajorSecond,
            Interval::MajorThird,
            Interval::Fourth,
            Interval::Fifth,
            Interval::MajorSixth,
            Interval::MajorSeventh,
        ];
        assert(intervals@ =~= major_intervals());
        Scale { root, intervals }
    }

    /// The natural minor scale on a root.
    pub fn minor(root: Note) -> (r: Scale)
        ensures
            r.root == root,
            r.intervals@ == minor_intervals(),
    {
        let intervals = vec![
            Interval::Unison,
            Interval::MajorSecond,
            Interval::MinorThird,
            Interval::Fourth,
            Interval::Fifth,
            Interval::MinorSixth,
            Interval::MinorSeventh,
        ];
        assert(intervals@ =~= minor_intervals());
        Scale { root, intervals }
    }

    /// The harmonic minor scale on a root.
    pub fn minor_harmonic(root: Note) -> (r: Scale)
        ensures
            r.root == root,
            r.intervals@ == minor_harmonic_intervals(),
    {
        let intervals = vec![
            Interval::Unison,
            Interval::MajorSecond,
            Interval::MinorThird,
            Interval::Fourth,
            Interval::Fifth,
            Interval::MinorSixth,
            Interval::MajorSeventh,
        ];
        assert(intervals@ =~= minor_harmonic_intervals());
        Scale { root, intervals }
    }

    /// The chord on the first degree, built by thirds.
    pub fn one(&self, len: usize) -> (r: Chord)
        requires
            self.can_build(0, 2, len as int),
        ensures
            r.notes@ == self.built(0, 2, len as int),
    {
        Chord::new(self.build_by_steps(0, 2, len))
    }

    /// The chord on the second degree, built by thirds.
    pub fn two(&self, len: usize) -> (r: Chord)
        requires
            self.can_build(1, 2, len as int),
        ensures
            r.notes@ == self.built(1, 2, len as int),
    {
        Chord::new(self.build_by_steps(1, 2, len))
    }

    /// The chord on the third degree, built by thirds.
    pub fn three(&self, len: usize) -> (r: Chord)
        requires
            self.can_build(2, 2, len as int),
        ensures
            r.notes@ == self.built(2, 2, len as int),
    {
        Chord::new(self.build_by_steps(2, 2, len))
    }

    /// The chord on the fourth degree, built by thirds.
    pub fn four(&self, len: usize) -> (r: Chord)
        requires
            self.can_build(3, 2, len as int),
        ensures
            r.notes@ == self.built(3, 2, len as int),
    {
        Chord::new(self.build_by_steps(3, 2, len))
    }

    /// The chord on the fifth degree, built by thirds.
    pub fn five(&self, len: usize) -> (r: Chord)
        requires
            self.can_build(4, 2, len as int),
        ensures
            r.notes@ == self.built(4, 2, len as int),
    {
        Chord::new(self.build_by_steps(4, 2, len))
    }

    /// The chord on the sixth degree, built by thirds.
    pub fn six(&self, len: usize) -> (r: Chord)
        requires
            self.can_build(5, 2, len as int),
        ensures
            r.notes@ == self.built(5, 2, len as int),
    {
        Chord::new(self.build_by_steps(5, 2, len))
    }

    /// The chord on the seventh degree, built by thirds.
    pub fn seven(&self, len: usize) -> (r: Chord)
        requires
            self.can_build(6, 2, len as int),
        ensures
            r.notes@ == self.built(6, 2, len as int),
    {
        Chord::new(self.build_by_steps(6, 2, len))
    }

    /// Semitones that stand at a position of the two octaves.
    fn offset_at(&self, pos: u128) -> (r: u32)
        requires
            pos < 2 * self.intervals@.len(),
        ensures
            r == two_octaves(self.intervals@)[pos as int],
            r < 36,
    {
        let n: usize = self.intervals.len();
        if pos < n as u128 {
            self.intervals[pos as usize].to_semitones() as u32
        } else {
            self.intervals[(pos - n as u128) as usize].to_semitones() as u32 + 12
        }
    }

    /// Notes of the scale picked by steps: from position `root` of the two
    /// octaves, every `step`-th one, `length` of them, going round as often as
    /// it takes.
    pub fn build_by_steps(&self, root: usize, step: usize, length: usize) -> (r: Vec<Note>)
        requires
            self.can_build(root as int, step as int, length as int),
        ensures
            r@ == self.built(root as int, step as int, length as int),
    {
        let mut notes: Vec<Note> = Vec::new();
        let n: usize = self.intervals.len();
        if n == 0 {
            assert(notes@ =~= self.built(root as int, step as int, length as int));
            return notes;
        }
        let round: u128 = 2 * (n as u128);
        let stride: u128 = step as u128 % round;
        let mut pos: u128 = root as u128 % round;
        let mut k: usize = 0;
        while k < length
            invariant
                k <= length,
                n == self.intervals@.len(),
                n > 0,
                round == 2 * n,
                stride == step as int % round as int,
                pos == (root as int + k as int * step as int) % round as int,
                self.can_build(root as int, step as int, length as int),
                notes@ == self.built(root as int, step as int, k as int),
            decreases length - k,
        {
            let offset: u32 = self.offset_at(pos);
            assert(offset == stepped(self.intervals@, root as int, step as int, k as int));
            notes.push(self.root.plus_semitones(offset));
            assert(notes@ =~= self.built(root as int, step as int, k + 1));
            proof {
                let here = root as int + k as int * step as int;
                vstd::arithmetic::div_mod::lemma_add_mod_noop(here, step as int, round as int);
                vstd::arithmetic::div_mod::lemma_mod_twice(here, round as int);
                assert((k + 1) * step == k * step + step) by (nonlinear_arith);
            }
            pos = (pos + stride) % round;
            k = k + 1;
        }
        notes
    }

    /// The scale as text: the notes of its degrees between `Scale(` and `)`,
    /// with commas between them.
    pub fn to_text(&self) -> (r: String)
        requires
            self.can_list(),
        ensures
            r@ == "Scale("@ + joined(self.degrees()) + ")"@,
    {
        let notes = self.notes();
        let mut text = String::from_str("Scale(");
        let mut i: usize = 0;
        assert(notes@.take(0) =~= Seq::<Note>::empty());
        assert(text@ =~= "Scale("@ + joined(notes@.take(0)));
        while i < notes.len()
            invariant
                i <= notes@.len(),
                text@ == "Scale("@ + joined(notes@.take(i as int)),
            decreases notes@.len() - i,
        {
            let ghost before = notes@.take(i as int);
            let ghost after = notes@.take(i + 1);
            assert(after.drop_last() =~= before);
            assert(after.last() == notes@[i as int]);
            if i > 0 {
                proof {
                    reveal_strlit(",");
                    assert(","@ =~= seq![',']);
                }
                text.append(",");
            }
            let token = notes[i].to_text();
            text.append(token.as_str());
            assert(text@ =~= "Scale("@ + joined(after));
            i = i + 1;
        }
        assert(notes@.take(i as int) =~= notes@);
        text.append(")");
        text
    }

    /// The note of each degree of the scale.
    pub fn notes(&self) -> (r: Vec<Note>)
        requires
            self.can_list(),
        ensures
            r@ == self.degrees(),
    {
        let mut notes: Vec<Note> = Vec::new();
        let mut i: usize = 0;
        while i < self.intervals.len()
            invariant
                i <= self.intervals@.len(),
                self.can_list(),
                notes@ == self.degrees().take(i as int),
            decreases self.intervals@.len() - i,
        {
            notes.push(self.root.plus(self.intervals[i]));
            assert(notes@ =~= self.degrees().take(i + 1));
            i = i + 1;
        }
        assert(self.degrees().take(i as int) =~= self.degrees());
        notes
    }
}

} // verus!
