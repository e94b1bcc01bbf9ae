//! Notes, intervals and chords over the twelve-tone alphabet.

use crate::messages::Data;
use itertools::Itertools;
use vstd::prelude::*;

pub mod scale;

verus! {

/// Key number of C in octave 0, the lowest key a `Note` can stand for.
pub const LOWEST_KEY: u8 = 21;

/// Highest key number that a MIDI data byte can carry.
pub const HIGHEST_KEY: u8 = 127;

/// The twelve letters in keyboard order, starting at C.
pub const KEYBOARD: [Letter; 12] = [
    Letter::C,
    Letter::Db,
    Letter::D,
    Letter::Eb,
    Letter::E,
    Letter::F,
    Letter::Gb,
    Letter::G,
    Letter::Ab,
    Letter::A,
    Letter::Bb,
    Letter::B,
];

/// Name of a note.
#[derive(Debug, PartialEq, Eq, Clone, Copy, Structural)]
pub enum Letter {
    A,
    Bb,
    B,
    C,
    Db,
    D,
    Eb,
    E,
    F,
    Gb,
    G,
    Ab,
}

impl Letter {
    /// Position of the letter on the keyboard, counted in semitones from C.
    pub open spec fn index(self) -> int {
        match self {
            Letter::C => 0,
            Letter::Db => 1,
            Letter::D => 2,
            Letter::Eb => 3,
            Letter::E => 4,
            Letter::F => 5,
            Letter::Gb => 6,
            Letter::G => 7,
            Letter::Ab => 8,
            Letter::A => 9,
            Letter::Bb => 10,
            Letter::B => 11,
        }
    }

    /// The letter that stands at position `i` of the keyboard.
    pub open spec fn at(i: int) -> Letter {
        if i == 0 {
            Letter::C
        } else if i == 1 {
            Letter::Db
        } else if i == 2 {
            Letter::D
        } else if i == 3 {
            Letter::Eb
        } else if i == 4 {
            Letter::E
        } else if i == 5 {
            Letter::F
        } else if i == 6 {
            Letter::Gb
        } else if i == 7 {
            Letter::G
        } else if i == 8 {
            Letter::Ab
        } else if i == 9 {
            Letter::A
        } else if i == 10 {
            Letter::Bb
        } else {
            Letter::B
        }
    }

    /// The letter as it is written: a capital, and `b` after it for a flat.
    pub open spec fn spelling(self) -> Seq<char> {
        match self {
            Letter::C => seq!['C'],
            Letter::Db => seq!['D', 'b'],
            Letter::D => seq!['D'],
            Letter::Eb => seq!['E', 'b'],
            Letter::E => seq!['E'],
            Letter::F => seq!['F'],
            Letter::Gb => seq!['G', 'b'],
            Letter::G => seq!['G'],
            Letter::Ab => seq!['A', 'b'],
            Letter::A => seq!['A'],
            Letter::Bb => seq!['B', 'b'],
            Letter::B => seq!['B'],
        }
    }

    /// Reading a letter's spelling gives the letter.
    pub proof fn lemma_spelling_read(self)
        ensures
            letter_of(self.spelling()) == Some(self),
            forall|i: int| 0 <= i < self.spelling().len() ==> !is_digit(#[trigger] self.spelling()[i]),
    {
    }

    /// The letter as it is written.
    pub fn name(self) -> (r: &'static str)
        ensures
            r@ == self.spelling(),
    {
        proof {
            reveal_strlit("C");
            reveal_strlit("Db");
            reveal_strlit("D");
            reveal_strlit("Eb");
            reveal_strlit("E");
            reveal_strlit("F");
            reveal_strlit("Gb");
            reveal_strlit("G");
            reveal_strlit("Ab");
            reveal_strlit("A");
            reveal_strlit("Bb");
            reveal_strlit("B");
            assert("C"@ =~= seq!['C']);
            assert("Db"@ =~= seq!['D', 'b']);
            assert("D"@ =~= seq!['D']);
            assert("Eb"@ =~= seq!['E', 'b']);
            assert("E"@ =~= seq!['E']);
            assert("F"@ =~= seq!['F']);
            assert("Gb"@ =~= seq!['G', 'b']);
            assert("G"@ =~= seq!['G']);
            assert("Ab"@ =~= seq!['A', 'b']);
            assert("A"@ =~= seq!['A']);
            assert("Bb"@ =~= seq!['B', 'b']);
            assert("B"@ =~= seq!['B']);
        }
        match self {
            Letter::C => "C",
            Letter::Db => "Db",
            Letter::D => "D",
            Letter::Eb => "Eb",
            Letter::E => "E",
            Letter::F => "F",
            Letter::Gb => "Gb",
            Letter::G => "G",
            Letter::Ab => "Ab",
            Letter::A => "A",
            Letter::Bb => "Bb",
            Letter::B => "B",
        }
    }

    /// Each of the twelve positions holds the letter with that position.
    pub proof fn lemma_index_at(i: int)
        requires
            0 <= i < 12,
        ensures
            Letter::at(i).index() == i,
    {
    }

    /// A letter stands at its own position, which is below twelve.
    pub proof fn lemma_at_index(self)
        ensures
            0 <= self.index() < 12,
            Letter::at(self.index()) == self,
    {
    }

    /// Position of the letter on the keyboard.
    pub fn position(self) -> (r: u8)
        ensures
            r == self.index(),
            r < 12,
            Letter::at(r as int) == self,
    {
        match self {
            Letter::C => 0,
            Letter::Db => 1,
            Letter::D => 2,
            Letter::Eb => 3,
            Letter::E => 4,
            Letter::F => 5,
            Letter::Gb => 6,
            Letter::G => 7,
            Letter::Ab => 8,
            Letter::A => 9,
            Letter::Bb => 10,
            Letter::B => 11,
        }
    }

    /// The letter at a position of the keyboard.
    pub fn from_index(i: u8) -> (r: Letter)
        requires
            i < 12,
        ensures
            r == Letter::at(i as int),
            r.index() == i,
    {
        KEYBOARD[i as usize]
    }
}

/// A named distance in semitones, from unison up to an octave and a major seventh.
#[derive(Debug, PartialEq, Eq, Clone, Copy, Structural)]
pub enum Interval {
    Unison,
    MinorSecond,
    MajorSecond,
    MinorThird,
    MajorThird,
    Fourth,
    Tritone,
    Fifth,
    MinorSixth,
    MajorSixth,
    MinorSeventh,
    MajorSeventh,
    Octave,
    MinorNinth,
    MajorNinth,
    MinorTenth,
    MajorTenth,
    Eleventh,
    OctaveTritone,
    Twelfth,
    MinorThirteenth,
    MajorThirteenth,
    MinorFourteenth,
    MajorFourteenth,
}

impl Interval {
    /// Number of semitones that the interval spans.
    pub open spec fn semitones(self) -> int {
        match self {
            Interval::Unison => 0,
            Interval::MinorSecond => 1,
            Interval::MajorSecond => 2,
            Interval::MinorThird => 3,
            Interval::MajorThird => 4,
            Interval::Fourth => 5,
            Interval::Tritone => 6,
            Interval::Fifth => 7,
            Interval::MinorSixth => 8,
            Interval::MajorSixth => 9,
            Interval::MinorSeventh => 10,
            Interval::MajorSeventh => 11,
            Interval::Octave => 12,
            Interval::MinorNinth => 13,
            Interval::MajorNinth => 14,
            Interval::MinorTenth => 15,
            Interval::MajorTenth => 16,
            Interval::Eleventh => 17,
            Interval::OctaveTritone => 18,
            Interval::Twelfth => 19,
            Interval::MinorThirteenth => 20,
            Interval::MajorThirteenth => 21,
            Interval::MinorFourteenth => 22,
            Interval::MajorFourteenth => 23,
        }
    }

    /// Number of semitones that the interval spans.
    pub fn to_semitones(self) -> (r: u8)
        ensures
            r == self.semitones(),
            r < 24,
    {
        match self {
            Interval::Unison => 0,
            Interval::MinorSecond => 1,
            Interval::MajorSecond => 2,
            Interval::MinorThird => 3,
            Interval::MajorThird => 4,
            Interval::Fourth => 5,
            Interval::Tritone => 6,
            Interval::Fifth => 7,
            Interval::MinorSixth => 8,
            Interval::MajorSixth => 9,
            Interval::MinorSeventh => 10,
            Interval::MajorSeventh => 11,
            Interval::Octave => 12,
            Interval::MinorNinth => 13,
            Interval::MajorNinth => 14,
            Interval::MinorTenth => 15,
            Interval::MajorTenth => 16,
            Interval::Eleventh => 17,
            Interval::OctaveTritone => 18,
            Interval::Twelfth => 19,
            Interval::MinorThirteenth => 20,
            Interval::MajorThirteenth => 21,
            Interval::MinorFourteenth => 22,
            Interval::MajorFourteenth => 23,
        }
    }

    /// The interval that spans `n` semitones, if one is named.
    pub fn from_semitones(n: u32) -> (r: Option<Interval>)
        ensures
            n < 24 <==> r.is_some(),
            r matches Some(i) ==> i.semitones() == n,
    {
        match n {
            0 => Some(Interval::Unison),
            1 => Some(Interval::MinorSecond),
            2 => Some(Interval::MajorSecond),
            3 => Some(Interval::MinorThird),
            4 => Some(Interval::MajorThird),
            5 => Some(Interval::Fourth),
            6 => Some(Interval::Tritone),
            7 => Some(Interval::Fifth),
            8 => Some(Interval::MinorSixth),
            9 => Some(Interval::MajorSixth),
            10 => Some(Interval::MinorSeventh),
            11 => Some(Interval::MajorSeventh),
            12 => Some(Interval::Octave),
            13 => Some(Interval::MinorNinth),
            14 => Some(Interval::MajorNinth),
            15 => Some(Interval::MinorTenth),
            16 => Some(Interval::MajorTenth),
            17 => Some(Interval::Eleventh),
            18 => Some(Interval::OctaveTritone),
            19 => Some(Interval::Twelfth),
            20 => Some(Interval::MinorThirteenth),
            21 => Some(Interval::MajorThirteenth),
            22 => Some(Interval::MinorFourteenth),
            23 => Some(Interval::MajorFourteenth),
            _ => None,
        }
    }
}

/// What can go wrong when a note is read from text.
#[derive(Debug, PartialEq, Eq, Clone, Copy, Structural)]
pub enum ParseError {
    /// The part before the first digit is not one of the twelve letter spellings.
    Letter,
    /// The part from the first digit on is empty, holds something other than
    /// digits, or names an octave above 255.
    Octave,
}

/// A letter in an octave.
#[derive(Debug, PartialEq, Eq, Clone, Copy, Structural)]
pub struct Note {
    pub letter: Letter,
    pub octave: u8,
}

/// Whether `c` is one of the ten decimal digits.
pub open spec fn is_digit(c: char) -> bool {
    '0' <= c <= '9'
}

/// Number of characters that stand before the first digit of `s`.
pub open spec fn letter_len(s: Seq<char>) -> nat
    decreases s.len(),
{
    if s.len() == 0 || is_digit(s[0]) {
        0
    } else {
        1 + letter_len(s.drop_first())
    }
}

/// The letter that `p` spells: a capital alone, or a capital and `b` for a flat.
pub open spec fn letter_of(p: Seq<char>) -> Option<Letter> {
    if p.len() == 1 {
        if p[0] == 'C' {
            Some(Letter::C)
        } else if p[0] == 'D' {
            Some(Letter::D)
        } else if p[0] == 'E' {
            Some(Letter::E)
        } else if p[0] == 'F' {
            Some(Letter::F)
        } else if p[0] == 'G' {
            Some(Letter::G)
        } else if p[0] == 'A' {
            Some(Letter::A)
        } else if p[0] == 'B' {
            Some(Letter::B)
        } else {
            None
        }
    } else if p.len() == 2 && p[1] == 'b' {
        if p[0] == 'D' {
            Some(Letter::Db)
        } else if p[0] == 'E' {
            Some(Letter::Eb)
        } else if p[0] == 'G' {
            Some(Letter::Gb)
        } else if p[0] == 'A' {
            Some(Letter::Ab)
        } else if p[0] == 'B' {
            Some(Letter::Bb)
        } else {
            None
        }
    } else {
        None
    }
}

/// Whether `d` is made of decimal digits only.
pub open spec fn all_digits(d: Seq<char>) -> bool {
    forall|i: int| 0 <= i < d.len() ==> is_digit(#[trigger] d[i])
}

/// The number that the digits `d` write in base ten.
pub open spec fn decimal_value(d: Seq<char>) -> nat
    decreases d.len(),
{
    if d.len() == 0 {
        0
    } else {
        (decimal_value(d.drop_last()) * 10 + (d.last() as int - '0' as int)) as nat
    }
}

/// The character that writes a digit.
pub open spec fn digit_char(d: int) -> char {
    if d == 0 {
        '0'
    } else if d == 1 {
        '1'
    } else if d == 2 {
        '2'
    } else if d == 3 {
        '3'
    } else if d == 4 {
        '4'
    } else if d == 5 {
        '5'
    } else if d == 6 {
        '6'
    } else if d == 7 {
        '7'
    } else if d == 8 {
        '8'
    } else {
        '9'
    }
}

/// The digits that write `n` in base ten, without leading zeros.
pub open spec fn decimal_digits(n: nat) -> Seq<char>
    decreases n,
{
    if n < 10 {
        seq![digit_char(n as int)]
    } else {
        decimal_digits(n / 10).push(digit_char(n as int % 10))
    }
}

/// The digits of a number are digits, and they write that number.
pub proof fn lemma_decimal_digits(n: nat)
    ensures
        decimal_digits(n).len() > 0,
        all_digits(decimal_digits(n)),
        decimal_value(decimal_digits(n)) == n,
    decreases n,
{
    let d = decimal_digits(n);
    if n < 10 {
        assert(d.drop_last() =~= Seq::<char>::empty());
        assert(decimal_value(d.drop_last()) == 0);
        assert(d.last() == digit_char(n as int));
    } else {
        lemma_decimal_digits(n / 10);
        let front = decimal_digits(n / 10);
        assert(d.drop_last() =~= front);
        assert(d.last() == digit_char(n as int % 10));
        assert forall|i: int| 0 <= i < d.len() implies is_digit(#[trigger] d[i]) by {
            if i < front.len() {
                assert(d[i] == front[i]);
            }
        }
    }
}

/// What a token says: its letter, then its octave in decimal digits.
pub open spec fn parse_token(s: Seq<char>) -> Result<Note, ParseError> {
    let k = letter_len(s) as int;
    let digits = s.skip(k);
    match letter_of(s.take(k)) {
        None => Err(ParseError::Letter),
        Some(letter) => if digits.len() > 0 && all_digits(digits) && decimal_value(digits) <= 255 {
            Ok(Note { letter, octave: decimal_value(digits) as u8 })
        } else {
            Err(ParseError::Octave)
        },
    }
}

/// Every digit beyond the first `j` can only make the number larger.
proof fn lemma_decimal_value_grows(d: Seq<char>, j: int)
    requires
        all_digits(d),
        0 <= j <= d.len(),
    ensures
        decimal_value(d.take(j)) <= decimal_value(d),
    decreases d.len() - j,
{
    if j == d.len() {
        assert(d.take(j) =~= d);
    } else {
        lemma_decimal_value_grows(d, j + 1);
        let t = d.take(j + 1);
        assert(t.drop_last() =~= d.take(j));
        assert(is_digit(d[j]));
        assert(t.last() == d[j]);
    }
}

/// The letter part of `s` ends where the scan from the left first meets a digit
/// or the end.
proof fn lemma_letter_len(s: Seq<char>, k: int)
    requires
        0 <= k <= s.len(),
        forall|i: int| 0 <= i < k ==> !is_digit(#[trigger] s[i]),
        k == s.len() || is_digit(s[k]),
    ensures
        letter_len(s) == k,
    decreases k,
{
    if k > 0 {
        let t = s.drop_first();
        assert forall|i: int| 0 <= i < k - 1 implies !is_digit(#[trigger] t[i]) by {
            assert(t[i] == s[i + 1]);
        }
        lemma_letter_len(t, k - 1);
    }
}

impl Note {
    /// Height of the note in semitones above C in octave 0.
    pub open spec fn pitch(self) -> int {
        self.octave as int * 12 + self.letter.index()
    }

    /// The note that lies `semitones` above this one: the letter moves round the
    /// keyboard, and each full round adds an octave.
    pub open spec fn shifted(self, semitones: int) -> Note {
        Note {
            letter: Letter::at((self.letter.index() + semitones) % 12),
            octave: (self.octave as int + (self.letter.index() + semitones) / 12) as u8,
        }
    }

    /// Whether the note `semitones` above this one still has an octave of at most 255.
    pub open spec fn can_shift(self, semitones: int) -> bool {
        semitones >= 0 && self.octave as int + (self.letter.index() + semitones) / 12 <= 255
    }

    /// The key number of the note, where it is a key at all.
    pub open spec fn key_number(self) -> Option<u8> {
        if LOWEST_KEY as int + self.pitch() <= HIGHEST_KEY as int {
            Some((LOWEST_KEY as int + self.pitch()) as u8)
        } else {
            None
        }
    }

    /// The note of a key number, where the key is on the keyboard.
    pub open spec fn of_key(k: u8) -> Option<Note> {
        if LOWEST_KEY <= k <= HIGHEST_KEY {
            Some(
                Note {
                    letter: Letter::at((k as int - LOWEST_KEY as int) % 12),
                    octave: ((k as int - LOWEST_KEY as int) / 12) as u8,
                },
            )
        } else {
            None
        }
    }

    /// Distance in semitones between two notes, whichever is the higher.
    pub open spec fn distance(self, other: Note) -> int {
        let d = (self.letter.index() - other.letter.index()) + 12 * (self.octave as int
            - other.octave as int);
        if d < 0 {
            -d
        } else {
            d
        }
    }

    /// A key on the keyboard gives a note whose key number is that key again.
    pub proof fn lemma_key_round_trip(k: u8)
        requires
            LOWEST_KEY <= k <= HIGHEST_KEY,
        ensures
            Note::of_key(k) is Some,
            Note::of_key(k).unwrap().key_number() == Some(k),
    {
    }

    /// A note that has a key number is the note of that key.
    pub proof fn lemma_note_round_trip(self)
        requires
            self.key_number() is Some,
        ensures
            Note::of_key(self.key_number().unwrap()) == Some(self),
    {
        self.letter.lemma_at_index();
    }

    /// The distance between two notes is the same from either side.
    pub proof fn lemma_distance_symmetric(self, other: Note)
        ensures
            self.distance(other) == other.distance(self),
    {
    }

    /// The distance between two notes is the difference of their heights.
    pub proof fn lemma_distance_is_pitch_difference(self, other: Note)
        ensures
            self.distance(other) == if self.pitch() >= other.pitch() {
                self.pitch() - other.pitch()
            } else {
                other.pitch() - self.pitch()
            },
    {
    }

    /// Moving a note up by some semitones raises its height by as many, so the
    /// carry into the octave is right however large the step.
    pub proof fn lemma_shifted_pitch(self, semitones: int)
        requires
            self.can_shift(semitones),
        ensures
            self.shifted(semitones).pitch() == self.pitch() + semitones,
    {
        self.letter.lemma_at_index();
        let total = self.letter.index() + semitones;
        vstd::arithmetic::div_mod::lemma_fundamental_div_mod(total, 12);
        assert(0 <= total % 12 < 12);
        assert(total / 12 >= 0);
        Letter::lemma_index_at(total % 12);
    }

    /// The token that writes the note: its letter, then its octave.
    pub open spec fn token(self) -> Seq<char> {
        self.letter.spelling() + decimal_digits(self.octave as nat)
    }

    /// Reading the token of a note gives the note.
    pub proof fn lemma_token_read(self)
        ensures
            parse_token(self.token()) == Ok::<Note, ParseError>(self),
    {
        let name = self.letter.spelling();
        let digits = decimal_digits(self.octave as nat);
        let s = self.token();
        let k = name.len() as int;
        self.letter.lemma_spelling_read();
        lemma_decimal_digits(self.octave as nat);
        assert forall|i: int| 0 <= i < k implies !is_digit(#[trigger] s[i]) by {
            assert(s[i] == name[i]);
        }
        assert(s[k] == digits[0]);
        lemma_letter_len(s, k);
        assert(s.take(k) =~= name);
        assert(s.skip(k) =~= digits);
    }

    pub fn new(letter: Letter, octave: u8) -> (r: Note)
        ensures
            r == (Note { letter, octave }),
    {
        Note { letter, octave }
    }

    /// Reads a note from a token such as `Bb2`.
    pub fn from_str(s: &str) -> (r: Result<Note, ParseError>)
        ensures
            r == parse_token(s@),
    {
        let n = s.unicode_len();
        let mut k: usize = 0;
        while k < n && !Self::digit(s.get_char(k))
            invariant
                n == s@.len(),
                k <= n,
                forall|i: int| 0 <= i < k ==> !is_digit(#[trigger] s@[i]),
            decreases n - k,
        {
            k = k + 1;
        }
        proof {
            lemma_letter_len(s@, k as int);
        }
        let ghost prefix = s@.take(k as int);
        let ghost digits = s@.skip(k as int);
        let letter: Option<Letter> = if k == 1 {
            Self::natural(s.get_char(0))
        } else if k == 2 && s.get_char(1) == 'b' {
            Self::flat(s.get_char(0))
        } else {
            None
        };
        assert(letter == letter_of(prefix));
        match letter {
            None => Err(ParseError::Letter),
            Some(letter) => {
                if k == n {
                    return Err(ParseError::Octave);
                }
                let mut value: u32 = 0;
                let mut j: usize = k;
                while j < n
                    invariant
                        n == s@.len(),
                        k <= j <= n,
                        digits == s@.skip(k as int),
                        all_digits(digits.take(j - k)),
                        value == decimal_value(digits.take(j - k)),
                        value <= 255,
                        letter_len(s@) == k,
                        letter_of(s@.take(k as int)) == Some(letter),
                    decreases n - j,
                {
                    let c = s.get_char(j);
                    let ghost before = digits.take(j - k);
                    let ghost after = digits.take(j - k + 1);
                    assert(after.drop_last() =~= before);
                    assert(after.last() == c);
                    if !Self::digit(c) {
                        assert(!is_digit(digits[j - k]));
                        return Err(ParseError::Octave);
                    }
                    value = value * 10 + (c as u32 - '0' as u32);
                    assert(value == decimal_value(after));
                    assert(all_digits(after)) by {
                        assert forall|i: int| 0 <= i < after.len() implies is_digit(
                            #[trigger] after[i],
                        ) by {
                            if i < before.len() {
                                assert(after[i] == before[i]);
                            }
                        }
                    }
                    if value > 255 {
                        proof {
                            if all_digits(digits) {
                                lemma_decimal_value_grows(digits, j - k + 1);
                            }
                        }
                        return Err(ParseError::Octave);
                    }
                    j = j + 1;
                }
                assert(digits.take(n - k) =~= digits);
                Ok(Note { letter, octave: value as u8 })
            },
        }
    }

    fn digit(c: char) -> (r: bool)
        ensures
            r == is_digit(c),
    {
        '0' <= c && c <= '9'
    }

    fn natural(c: char) -> (r: Option<Letter>)
        ensures
            r == letter_of(seq![c]),
    {
        if c == 'C' {
            Some(Letter::C)
        } else if c == 'D' {
            Some(Letter::D)
        } else if c == 'E' {
            Some(Letter::E)
        } else if c == 'F' {
            Some(Letter::F)
        } else if c == 'G' {
            Some(Letter::G)
        } else if c == 'A' {
            Some(Letter::A)
        } else if c == 'B' {
            Some(Letter::B)
        } else {
            None
        }
    }

    fn flat(c: char) -> (r: Option<Letter>)
        ensures
            r == letter_of(seq![c, 'b']),
    {
        if c == 'D' {
            Some(Letter::Db)
        } else if c == 'E' {
            Some(Letter::Eb)
        } else if c == 'G' {
            Some(Letter::Gb)
        } else if c == 'A' {
            Some(Letter::Ab)
        } else if c == 'B' {
            Some(Letter::Bb)
        } else {
            None
        }
    }

    /// The text of one digit.
    fn digit_text(d: u8) -> (r: &'static str)
        requires
            d < 10,
        ensures
            r@ == seq![digit_char(d as int)],
    {
        proof {
            reveal_strlit("0");
            reveal_strlit("1");
            reveal_strlit("2");
            reveal_strlit("3");
            reveal_strlit("4");
            reveal_strlit("5");
            reveal_strlit("6");
            reveal_strlit("7");
            reveal_strlit("8");
            reveal_strlit("9");
            assert("0"@ =~= seq!['0']);
            assert("1"@ =~= seq!['1']);
            assert("2"@ =~= seq!['2']);
            assert("3"@ =~= seq!['3']);
            assert("4"@ =~= seq!['4']);
            assert("5"@ =~= seq!['5']);
            assert("6"@ =~= seq!['6']);
            assert("7"@ =~= seq!['7']);
            assert("8"@ =~= seq!['8']);
            assert("9"@ =~= seq!['9']);
        }
        if d == 0 {
            "0"
        } else if d == 1 {
            "1"
        } else if d == 2 {
            "2"
        } else if d == 3 {
            "3"
        } else if d == 4 {
            "4"
        } else if d == 5 {
            "5"
        } else if d == 6 {
            "6"
        } else if d == 7 {
            "7"
        } else if d == 8 {
            "8"
        } else {
            "9"
        }
    }

    /// The note as text, such as `Bb2`: what `from_str` reads back as this note.
    pub fn to_text(&self) -> (r: String)
        ensures
            r@ == self.token(),
    {
        let mut text = String::from_str(self.letter.name());
        let octave: u8 = self.octave;
        proof {
            reveal_with_fuel(decimal_digits, 3);
        }
        if octave >= 100 {
            text.append(Self::digit_text(octave / 100));
        }
        if octave >= 10 {
            text.append(Self::digit_text((octave / 10) % 10));
        }
        text.append(Self::digit_text(octave % 10));
        assert(text@ =~= self.token());
        text
    }

    /// The note of a MIDI key number.
    pub fn from_key_number(kn: &Data) -> (r: Option<Note>)
        ensures
            r == (match *kn {
                Data::KeyNumber(k) => Note::of_key(k),
                _ => None,
            }),
    {
        match kn {
            Data::KeyNumber(x) => {
                let x: u8 = *x;
                if x < LOWEST_KEY || x > HIGHEST_KEY {
                    None
                } else {
                    let above: u8 = x - LOWEST_KEY;
                    Some(Note { letter: Letter::from_index(above % 12), octave: above / 12 })
                }
            },
            _ => None,
        }
    }

    /// The MIDI key number of the note.
    pub fn to_key_number(&self) -> (r: Option<u8>)
        ensures
            r == self.key_number(),
    {
        let pitch: u32 = self.octave as u32 * 12 + self.letter.position() as u32;
        if pitch + LOWEST_KEY as u32 <= HIGHEST_KEY as u32 {
            Some((pitch + LOWEST_KEY as u32) as u8)
        } else {
            None
        }
    }

    /// Distance in semitones to another note.
    pub fn dist_to(&self, other: &Note) -> (r: u16)
        ensures
            r == self.distance(*other),
    {
        let a: u16 = self.octave as u16 * 12 + self.letter.position() as u16;
        let b: u16 = other.octave as u16 * 12 + other.letter.position() as u16;
        if a >= b {
            a - b
        } else {
            b - a
        }
    }

    /// The note that lies `semitones` higher.
    pub fn plus_semitones(&self, semitones: u32) -> (r: Note)
        requires
            self.can_shift(semitones as int),
        ensures
            r == self.shifted(semitones as int),
    {
        let total: u64 = self.letter.position() as u64 + semitones as u64;
        let carry: u64 = total / 12;
        let octave: u64 = self.octave as u64 + carry;
        Note { letter: Letter::from_index((total % 12) as u8), octave: octave as u8 }
    }

    /// The note that lies an interval higher.
    pub fn plus(&self, interval: Interval) -> (r: Note)
        requires
            self.can_shift(interval.semitones()),
        ensures
            r == self.shifted(interval.semitones()),
    {
        self.plus_semitones(interval.to_semitones() as u32)
    }
}

impl core::ops::Add<Interval> for Note {
    type Output = Note;

    /// The note that lies an interval higher.
    fn add(self, rhs: Interval) -> (r: Note) {
        self.plus(rhs)
    }
}

impl vstd::std_specs::ops::AddSpecImpl<Interval> for Note {
    open spec fn obeys_add_spec() -> bool {
        true
    }

    open spec fn add_req(self, rhs: Interval) -> bool {
        self.can_shift(rhs.semitones())
    }

    open spec fn add_spec(self, rhs: Interval) -> Note {
        self.shifted(rhs.semitones())
    }
}

/// Notes sounded together, lowest first.
#[derive(Debug, Clone)]
pub struct Chord {
    pub notes: Vec<Note>,
}

/// Every note of `s` moved `semitones` up, in the same order.
pub open spec fn shifted_all(s: Seq<Note>, semitones: int) -> Seq<Note> {
    Seq::new(s.len(), |i: int| s[i].shifted(semitones))
}

/// The characters of each token.
pub open spec fn token_texts(tokens: Seq<&str>) -> Seq<Seq<char>> {
    Seq::new(tokens.len(), |i: int| tokens[i]@)
}

/// One inversion: the lowest note leaves the bottom and comes back on top, an
/// octave higher. A chord without notes stays as it is.
pub open spec fn inverted_once(s: Seq<Note>) -> Seq<Note> {
    if s.len() == 0 {
        s
    } else {
        s.remove(0).push(s[0].shifted(12))
    }
}

/// `n` inversions, one after the other.
pub open spec fn inverted(s: Seq<Note>, n: nat) -> Seq<Note>
    decreases n,
{
    if n == 0 {
        s
    } else {
        inverted_once(inverted(s, (n - 1) as nat))
    }
}

/// Whether each of `n` inversions finds room above its lowest note.
pub open spec fn can_invert(s: Seq<Note>, n: nat) -> bool
    decreases n,
{
    n == 0 || (can_invert(s, (n - 1) as nat) && (s.len() == 0 || inverted(s, (n - 1) as nat)[0].can_shift(
        12,
    )))
}

/// Inversions keep the number of notes.
pub proof fn lemma_inverted_len(s: Seq<Note>, n: nat)
    ensures
        inverted(s, n).len() == s.len(),
    decreases n,
{
    if n > 0 {
        lemma_inverted_len(s, (n - 1) as nat);
    }
}

/// What is possible `n` times is possible any smaller number of times.
pub proof fn lemma_can_invert_fewer(s: Seq<Note>, n: nat, m: nat)
    requires
        can_invert(s, n),
        m <= n,
    ensures
        can_invert(s, m),
    decreases n,
{
    if m < n {
        lemma_can_invert_fewer(s, (n - 1) as nat, m);
    }
}

/// One inversion of a chord with notes moves every note but the lowest one place
/// down, and puts the lowest on top with the same letter, one octave up.
pub proof fn lemma_invert_once(s: Seq<Note>)
    requires
        s.len() > 0,
        can_invert(s, 1),
    ensures
        inverted(s, 1).len() == s.len(),
        forall|i: int| 0 <= i < s.len() - 1 ==> inverted(s, 1)[i] == s[i + 1],
        inverted(s, 1).last().letter == s[0].letter,
        inverted(s, 1).last().octave == s[0].octave + 1,
{
    reveal_with_fuel(inverted, 2);
    reveal_with_fuel(can_invert, 2);
    let first = s[0];
    first.letter.lemma_at_index();
}

/// After `k` inversions, for `k` up to the number of notes, the notes that were
/// above the `k` lowest stand first, and the `k` lowest follow them an octave up.
pub proof fn lemma_inverted_prefix(s: Seq<Note>, k: nat)
    requires
        k <= s.len(),
    ensures
        inverted(s, k) == s.skip(k as int) + shifted_all(s.take(k as int), 12),
    decreases k,
{
    if k == 0 {
        assert(inverted(s, k) =~= s.skip(0) + shifted_all(s.take(0), 12));
    } else {
        let j = (k - 1) as nat;
        lemma_inverted_prefix(s, j);
        let before = s.skip(j as int) + shifted_all(s.take(j as int), 12);
        assert(before.len() == s.len());
        assert(before[0] == s[j as int]);
        assert(inverted_once(before) =~= s.skip(k as int) + shifted_all(s.take(k as int), 12));
    }
}

/// As many inversions as the chord has notes bring back the order it had, with
/// every note one octave up.
pub proof fn lemma_invert_all(s: Seq<Note>)
    ensures
        inverted(s, s.len()) == shifted_all(s, 12),
{
    lemma_inverted_prefix(s, s.len());
    assert(s.take(s.len() as int) =~= s);
    assert(s.skip(s.len() as int) + shifted_all(s, 12) =~= shifted_all(s, 12));
}

/// The notes that a list of tokens names, or the error of the first token that
/// names none.
pub open spec fn parse_tokens(tokens: Seq<Seq<char>>) -> Result<Seq<Note>, ParseError>
    decreases tokens.len(),
{
    if tokens.len() == 0 {
        Ok(Seq::empty())
    } else {
        match parse_tokens(tokens.drop_last()) {
            Err(e) => Err(e),
            Ok(notes) => match parse_token(tokens.last()) {
                Err(e) => Err(e),
                Ok(note) => Ok(notes.push(note)),
            },
        }
    }
}

/// Gathers notes into a vector of their own with itertools' `collect_vec`,
/// which collects the items of an iterator in the order in which it yields
/// them. Trusted: the vector holds the given notes, in the given order.
#[verifier::external_body]
fn collected(notes: &[Note]) -> (r: Vec<Note>)
    ensures
        r@ == notes@,
{
    notes.iter().copied().collect_vec()
}

impl Chord {
    pub fn new(notes: Vec<Note>) -> (r: Chord)
        ensures
            r.notes == notes,
    {
        Chord { notes }
    }

    /// Reads a chord from the tokens of its notes, lowest first. A token that
    /// names no note fails the whole chord, with the error of the first such token.
    pub fn from_str(notes: Vec<&str>) -> (r: Result<Chord, ParseError>)
        ensures
            match r {
                Ok(chord) => parse_tokens(token_texts(notes@)) == Ok::<Seq<Note>, ParseError>(
                    chord.notes@,
                ),
                Err(e) => parse_tokens(token_texts(notes@)) == Err::<Seq<Note>, ParseError>(e),
            },
    {
        let ghost tokens = token_texts(notes@);
        let mut parsed: Vec<Note> = Vec::new();
        let mut i: usize = 0;
        assert(tokens.take(0) =~= Seq::<Seq<char>>::empty());
        while i < notes.len()
            invariant
                i <= notes.len(),
                tokens == token_texts(notes@),
                parse_tokens(tokens.take(i as int)) == Ok::<Seq<Note>, ParseError>(parsed@),
            decreases notes.len() - i,
        {
            let ghost next = tokens.take(i + 1);
            assert(next.drop_last() =~= tokens.take(i as int));
            assert(next.last() == notes[i as int]@);
            match Note::from_str(notes[i]) {
                Ok(note) => {
                    parsed.push(note);
                },
                Err(e) => {
                    proof {
                        lemma_parse_tokens_fails(tokens, i + 1);
                    }
                    return Err(e);
                },
            }
            i = i + 1;
        }
        assert(tokens.take(i as int) =~= tokens);
        Ok(Chord { notes: parsed })
    }

    /// The chord after `n` inversions.
    pub fn invert(&self, n: usize) -> (r: Chord)
        requires
            can_invert(self.notes@, n as nat),
        ensures
            r.notes@ == inverted(self.notes@, n as nat),
    {
        let mut notes: Vec<Note> = collected(self.notes.as_slice());
        let mut done: usize = 0;
        while done < n
            invariant
                done <= n,
                can_invert(self.notes@, n as nat),
                notes@ == inverted(self.notes@, done as nat),
            decreases n - done,
        {
            proof {
                lemma_can_invert_fewer(self.notes@, n as nat, (done + 1) as nat);
                lemma_inverted_len(self.notes@, done as nat);
            }
            if notes.len() > 0 {
                let lowest = notes.remove(0);
                notes.push(lowest.plus(Interval::Octave));
            }
            done = done + 1;
        }
        Chord { notes }
    }

    /// The chord with every note an interval higher.
    pub fn plus(&self, interval: Interval) -> (r: Chord)
        requires
            forall|i: int|
                0 <= i < self.notes@.len() ==> (#[trigger] self.notes@[i]).can_shift(
                    interval.semitones(),
                ),
        ensures
            r.notes@ == shifted_all(self.notes@, interval.semitones()),
    {
        let mut notes: Vec<Note> = Vec::new();
        let mut i: usize = 0;
        while i < self.notes.len()
            invariant
                i <= self.notes.len(),
                forall|i: int|
                    0 <= i < self.notes@.len() ==> (#[trigger] self.notes@[i]).can_shift(
                        interval.semitones(),
                    ),
                notes@ == shifted_all(self.notes@.take(i as int), interval.semitones()),
            decreases self.notes.len() - i,
        {
            notes.push(self.notes[i].plus(interval));
            assert(notes@ =~= shifted_all(self.notes@.take(i + 1), interval.semitones()));
            i = i + 1;
        }
        assert(self.notes@.take(i as int) =~= self.notes@);
        Chord { notes }
    }
}

impl core::ops::Add<Interval> for Chord {
    type Output = Chord;

    /// The chord with every note an interval higher.
    fn add(self, rhs: Interval) -> (r: Chord)
        ensures
            r.notes@ == shifted_all(self.notes@, rhs.semitones()),
    {
        self.plus(rhs)
    }
}

/// When `+` may be applied to a chord. What it yields is stated by `add` itself,
/// over the notes: a chord holds a vector, which no spec function can build, so
/// `add_spec` is left without meaning.
impl vstd::std_specs::ops::AddSpecImpl<Interval> for Chord {
    open spec fn obeys_add_spec() -> bool {
        false
    }

    open spec fn add_req(self, rhs: Interval) -> bool {
        forall|i: int|
            0 <= i < self.notes@.len() ==> (#[trigger] self.notes@[i]).can_shift(rhs.semitones())
    }

    open spec fn add_spec(self, rhs: Interval) -> Chord {
        self
    }
}

/// Once a token fails, the tokens after it change nothing.
proof fn lemma_parse_tokens_fails(tokens: Seq<Seq<char>>, k: int)
    requires
        0 <= k <= tokens.len(),
        parse_tokens(tokens.take(k)) is Err,
    ensures
        parse_tokens(tokens) == parse_tokens(tokens.take(k)),
    decreases tokens.len() - k,
{
    if k == tokens.len() {
        assert(tokens.take(k) =~= tokens);
    } else {
        let next = tokens.take(k + 1);
        assert(next.drop_last() =~= tokens.take(k));
        lemma_parse_tokens_fails(tokens, k + 1);
    }
}

} // verus!
