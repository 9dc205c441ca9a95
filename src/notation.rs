//! Equal-tempered note names and nearest-note lookup. Frequencies are
//! integers in one fixed unit chosen by the caller (millihertz, say); the
//! scale is an ascending table whose index 0 is A0.
use vstd::prelude::*;
use vstd::string::StringSliceAdditionalSpecFns;
use vstd::string::is_ascii_spec_bytes;
use vstd::utf8::is_ascii_chars;

verus! {

/// Entries of the chromatic scale table, from A0 upwards.
pub const NOTE_COUNT: usize = 106;

/// Why a note name was not understood.
#[derive(Debug, Clone, Copy, PartialEq, Eq, Structural)]
pub enum ParseError {
    /// Not two or three bytes long.
    BadLength,
    /// The letter, with its accidental, is none of the twelve pitch classes.
    UnknownLetter,
    /// The last byte is not a decimal digit.
    BadOctave,
    /// The note lies outside the table (below A0 or above its last entry).
    OutOfRange,
}

/// Semitones above C of a natural letter.
pub open spec fn natural_value(c: u8) -> Option<int> {
    if c == 0x43 {
        Some(0)  // C
    } else if c == 0x44 {
        Some(2)  // D
    } else if c == 0x45 {
        Some(4)  // E
    } else if c == 0x46 {
        Some(5)  // F
    } else if c == 0x47 {
        Some(7)  // G
    } else if c == 0x41 {
        Some(9)  // A
    } else if c == 0x42 {
        Some(11)  // B
    } else {
        None
    }
}

/// Semitones above C of a letter with an optional `#`; E and B take none.
pub open spec fn letter_value(l: Seq<u8>) -> Option<int> {
    if l.len() == 1 {
        natural_value(l[0])
    } else if l.len() == 2 && l[1] == 0x23 && l[0] != 0x45 && l[0] != 0x42 {
        match natural_value(l[0]) {
            Some(v) => Some(v + 1),
            None => None,
        }
    } else {
        None
    }
}

/// The table index named by `b`: letter and octave give
/// `letter + 12 * octave`, less 9 since the table starts at A0.
pub open spec fn parse_note(b: Seq<u8>) -> Result<int, ParseError> {
    if b.len() != 2 && b.len() != 3 {
        Err(ParseError::BadLength)
    } else {
        let o = b[b.len() - 1];
        match letter_value(b.subrange(0, b.len() - 1)) {
            None => Err(ParseError::UnknownLetter),
            Some(v) => if o < 0x30 || o > 0x39 {
                Err(ParseError::BadOctave)
            } else {
                let idx = v + 12 * (o - 0x30) - 9;
                if idx < 0 || idx >= NOTE_COUNT {
                    Err(ParseError::OutOfRange)
                } else {
                    Ok(idx)
                }
            },
        }
    }
}

pub open spec fn letter_name(m: int) -> Seq<char> {
    if m == 0 {
        seq!['C']
    } else if m == 1 {
        seq!['C', '#']
    } else if m == 2 {
        seq!['D']
    } else if m == 3 {
        seq!['D', '#']
    } else if m == 4 {
        seq!['E']
    } else if m == 5 {
        seq!['F']
    } else if m == 6 {
        seq!['F', '#']
    } else if m == 7 {
        seq!['G']
    } else if m == 8 {
        seq!['G', '#']
    } else if m == 9 {
        seq!['A']
    } else if m == 10 {
        seq!['A', '#']
    } else {
        seq!['B']
    }
}

pub open spec fn digit_char(d: int) -> char {
    if d == 0 {
        '0'
    } else if d == 1 {
        '1'
    } else if d == 2 {
        '2'
    } else if d == 3 {
        '3'
    } else if d == 4 {
        '4'
    } else if d == 5 {
        '5'
    } else if d == 6 {
        '6'
    } else if d == 7 {
        '7'
    } else if d == 8 {
        '8'
    } else {
        '9'
    }
}

/// The name of table index `i`: pitch class `(i + 9) % 12`, octave
/// `(i + 9) / 12`.
pub open spec fn note_label(i: int) -> Seq<char> {
    letter_name((i + 9) % 12) + seq![digit_char((i + 9) / 12)]
}

pub open spec fn dist(a: u64, b: u64) -> int {
    if a >= b {
        a - b
    } else {
        b - a
    }
}

pub open spec fn ascending(s: Seq<u64>) -> bool {
    forall|i: int, j: int| 0 <= i < j < s.len() ==> s[i] < s[j]
}

/// `r` is the index closest to `q`; of two equally close, the higher.
pub open spec fn is_nearest(s: Seq<u64>, q: u64, r: int) -> bool {
    &&& 0 <= r < s.len()
    &&& forall|j: int| 0 <= j < r ==> dist(q, #[trigger] s[j]) >= dist(q, s[r])
    &&& forall|j: int| r < j < s.len() ==> dist(q, #[trigger] s[j]) > dist(q, s[r])
}

/// Index of the entry of an ascending table closest to `note_freq`, by
/// bisection.
pub fn fit_to_scale(scale: &[u64], note_freq: u64) -> (r: usize)
    requires
        scale@.len() > 0,
        ascending(scale@),
    ensures
        is_nearest(scale@, note_freq, r as int),
{
    let s = Ghost(scale@);
    let q = note_freq;
    let mut low: usize = 0;
    let mut high: usize = scale.len() - 1;
    while high - low > 1
        invariant
            s@ == scale@,
            ascending(s@),
            low <= high < s@.len(),
            low == 0 || s@[low as int] <= q,
            high == s@.len() - 1 || q < s@[high as int],
        decreases high - low,
    {
        let mid = low + (high - low) / 2;
        if q >= scale[mid] {
            low = mid;
        } else {
            high = mid;
        }
    }
    let r = if dist_exec(q, scale[low]) < dist_exec(q, scale[high]) {
        low
    } else {
        high
    };
    assert forall|j: int| 0 <= j < low implies dist(q, #[trigger] s@[j]) > dist(q, s@[low as int]) by {
        assert(s@[j] < s@[low as int]);
    }
    assert forall|j: int| high < j < s@.len() implies dist(q, #[trigger] s@[j]) > dist(
        q,
        s@[high as int],
    ) by {
        assert(s@[high as int] < s@[j]);
    }
    r
}

fn dist_exec(a: u64, b: u64) -> (r: u64)
    ensures
        r as int == dist(a, b),
{
    if a >= b {
        a - b
    } else {
        b - a
    }
}

/// The table index that a note name such as `A4` or `D#3` denotes.
pub fn note_index(note: &str) -> (r: Result<usize, ParseError>)
    ensures
        match parse_note(note.spec_bytes()) {
            Ok(i) => r == Ok::<usize, ParseError>(i as usize),
            Err(e) => r == Err::<usize, ParseError>(e),
        },
{
    let b = note.as_bytes();
    let len = b.len();
    if len != 2 && len != 3 {
        return Err(ParseError::BadLength);
    }
    let c = b[0];
    let natural: u8 = if c == 0x43 {
        0
    } else if c == 0x44 {
        2
    } else if c == 0x45 {
        4
    } else if c == 0x46 {
        5
    } else if c == 0x47 {
        7
    } else if c == 0x41 {
        9
    } else if c == 0x42 {
        11
    } else {
        return Err(ParseError::UnknownLetter);
    };
    let value: u8 = if len == 3 {
        if b[1] != 0x23 || c == 0x45 || c == 0x42 {
            return Err(ParseError::UnknownLetter);
        }
        natural + 1
    } else {
        natural
    };
    assert(letter_value(b@.subrange(0, len - 1)) == Some(value as int));
    let o = b[len - 1];
    if o < 0x30 || o > 0x39 {
        return Err(ParseError::BadOctave);
    }
    let idx: usize = value as usize + 12 * ((o - 0x30) as usize);
    if idx < 9 || idx - 9 >= NOTE_COUNT {
        return Err(ParseError::OutOfRange);
    }
    Ok(idx - 9)
}

/// The frequency of a named note in a scale table.
pub fn note_to_freq(scale: &[u64], note: &str) -> (r: Result<u64, ParseError>)
    requires
        scale@.len() == NOTE_COUNT,
    ensures
        match parse_note(note.spec_bytes()) {
            Ok(i) => r == Ok::<u64, ParseError>(scale@[i]),
            Err(e) => r == Err::<u64, ParseError>(e),
        },
{
    match note_index(note) {
        Ok(i) => Ok(scale[i]),
        Err(e) => Err(e),
    }
}


fn letter_str(m: usize) -> (r: &'static str)
    requires
        m < 12,
    ensures
        r@ == letter_name(m as int),
{
    if m == 0 {
        proof {
            reveal_strlit("C");
        }
        "C"
    } else if m == 1 {
        proof {
            reveal_strlit("C#");
        }
        "C#"
    } else if m == 2 {
        proof {
            reveal_strlit("D");
        }
        "D"
    } else if m == 3 {
        proof {
            reveal_strlit("D#");
        }
        "D#"
    } else if m == 4 {
        proof {
            reveal_strlit("E");
        }
        "E"
    } else if m == 5 {
        proof {
            reveal_strlit("F");
        }
        "F"
    } else if m == 6 {
        proof {
            reveal_strlit("F#");
        }
        "F#"
    } else if m == 7 {
        proof {
            reveal_strlit("G");
        }
        "G"
    } else if m == 8 {
        proof {
            reveal_strlit("G#");
        }
        "G#"
    } else if m == 9 {
        proof {
            reveal_strlit("A");
        }
        "A"
    } else if m == 10 {
        proof {
            reveal_strlit("A#");
        }
        "A#"
    } else {
        proof {
            reveal_strlit("B");
        }
        "B"
    }
}

fn digit_str(d: usize) -> (r: &'static str)
    requires
        d < 10,
    ensures
        r@ == seq![digit_char(d as int)],
{
    if d == 0 {
        proof {
            reveal_strlit("0");
        }
        "0"
    } else if d == 1 {
        proof {
            reveal_strlit("1");
        }
        "1"
    } else if d == 2 {
        proof {
            reveal_strlit("2");
        }
        "2"
    } else if d == 3 {
        proof {
            reveal_strlit("3");
        }
        "3"
    } else if d == 4 {
        proof {
            reveal_strlit("4");
        }
        "4"
    } else if d == 5 {
        proof {
            reveal_strlit("5");
        }
        "5"
    } else if d == 6 {
        proof {
            reveal_strlit("6");
        }
        "6"
    } else if d == 7 {
        proof {
            reveal_strlit("7");
        }
        "7"
    } else if d == 8 {
        proof {
            reveal_strlit("8");
        }
        "8"
    } else {
        proof {
            reveal_strlit("9");
        }
        "9"
    }
}

/// The name of a table index, such as `A0` for index 0.
pub fn note_name(index: usize) -> (r: String)
    requires
        index < NOTE_COUNT,
    ensures
        r@ == note_label(index as int),
{
    let k = index + 9;
    let mut r = String::from_str(letter_str(k % 12));
    r.append(digit_str(k / 12));
    r
}

/// The name of the table entry closest to `freq`.
pub fn freq_to_note(scale: &[u64], freq: u64) -> (r: String)
    requires
        0 < scale@.len() <= NOTE_COUNT,
        ascending(scale@),
    ensures
        exists|i: int| is_nearest(scale@, freq, i) && r@ == note_label(i),
{
    let i = fit_to_scale(scale, freq);
    note_name(i)
}

proof fn lemma_letter_parses(m: int)
    requires
        0 <= m < 12,
    ensures
        is_ascii_chars(letter_name(m)),
        letter_value(letter_name(m).map_values(|c: char| c as u8)) == Some(m),
{
    let l = letter_name(m).map_values(|c: char| c as u8);
    if letter_name(m).len() == 2 {
        assert(l[1] == 0x23u8);
    }
}

proof fn lemma_digit_parses(d: int)
    requires
        0 <= d < 10,
    ensures
        '\0' <= digit_char(d) <= '\u{7f}',
        digit_char(d) as u8 == 0x30 + d,
{
}

/// A string holding the name of table index `i` parses back to `i`: so
/// looking up a note by the name of an index gives that index's entry.
pub proof fn lemma_name_round_trip(name: &str, i: int)
    requires
        0 <= i < NOTE_COUNT,
        name@ == note_label(i),
    ensures
        parse_note(name.spec_bytes()) == Ok::<int, ParseError>(i),
{
    let m = (i + 9) % 12;
    let o = (i + 9) / 12;
    assert(0 <= o < 10);
    lemma_letter_parses(m);
    lemma_digit_parses(o);
    let l = letter_name(m);
    assert(is_ascii_chars(name@));
    is_ascii_spec_bytes(name);
    let b = name.spec_bytes();
    assert(b.len() == l.len() + 1);
    assert(b.subrange(0, b.len() - 1) =~= l.map_values(|c: char| c as u8));
    assert(b[b.len() - 1] == 0x30 + o);
}
} // verus!
