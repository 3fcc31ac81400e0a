//! Canonical 128-bit identifiers: parsing from plain or hyphenated hex
//! text, and formatting back.

use vstd::prelude::*;

verus! {

/// The value of a hex digit, or -1 for any other character.
pub open spec fn hex_val(c: char) -> int {
    if '0' <= c && c <= '9' {
        c as int - '0' as int
    } else if 'a' <= c && c <= 'f' {
        c as int - 'a' as int + 10
    } else if 'A' <= c && c <= 'F' {
        c as int - 'A' as int + 10
    } else {
        -1
    }
}

/// The string position of the `j`-th hex digit in the hyphenated form:
/// groups of 8, 4, 4, 4 and 12 digits, separated by hyphens.
pub open spec fn uuid36_digit_idx(j: int) -> int {
    if j < 8 {
        j
    } else if j < 12 {
        j + 1
    } else if j < 16 {
        j + 2
    } else if j < 20 {
        j + 3
    } else {
        j + 4
    }
}

/// Whether the 36-character form carries its hyphens where they belong.
pub open spec fn uuid36_hyphens_ok(s: Seq<char>) -> bool {
    s[8] == '-' && s[13] == '-' && s[18] == '-' && s[23] == '-'
}

/// The bytes encoded by the 32 hex digits read through the index map
/// `idx`: digit pairs, high nibble first.
pub open spec fn spec_hex_bytes(s: Seq<char>, plain: bool) -> Seq<u8> {
    Seq::new(
        16,
        |k: int|
            {
                let i1 = if plain {
                    2 * k
                } else {
                    uuid36_digit_idx(2 * k)
                };
                let i2 = if plain {
                    2 * k + 1
                } else {
                    uuid36_digit_idx(2 * k + 1)
                };
                (hex_val(s[i1]) * 16 + hex_val(s[i2])) as u8
            },
    )
}

/// What parsing yields: 32 plain hex digits, or the hyphenated
/// 8-4-4-4-12 form, give the sixteen bytes; anything else is rejected.
pub open spec fn spec_parse_uuid(s: Seq<char>) -> Option<Seq<u8>> {
    if s.len() == 32 {
        if forall|j: int| 0 <= j < 32 ==> hex_val(#[trigger] s[j]) != -1 {
            Option::Some(spec_hex_bytes(s, true))
        } else {
            Option::None
        }
    } else if s.len() == 36 {
        if uuid36_hyphens_ok(s) && (forall|j: int|
            0 <= j < 32 ==> hex_val(#[trigger] s[uuid36_digit_idx(j)]) != -1) {
            Option::Some(spec_hex_bytes(s, false))
        } else {
            Option::None
        }
    } else {
        Option::None
    }
}

/// The hex character of the nibble `n`.
pub open spec fn nibble_char(n: int, lower: bool) -> char {
    if n == 0 {
        '0'
    } else if n == 1 {
        '1'
    } else if n == 2 {
        '2'
    } else if n == 3 {
        '3'
    } else if n == 4 {
        '4'
    } else if n == 5 {
        '5'
    } else if n == 6 {
        '6'
    } else if n == 7 {
        '7'
    } else if n == 8 {
        '8'
    } else if n == 9 {
        '9'
    } else if n == 10 {
        if lower {
            'a'
        } else {
            'A'
        }
    } else if n == 11 {
        if lower {
            'b'
        } else {
            'B'
        }
    } else if n == 12 {
        if lower {
            'c'
        } else {
            'C'
        }
    } else if n == 13 {
        if lower {
            'd'
        } else {
            'D'
        }
    } else if n == 14 {
        if lower {
            'e'
        } else {
            'E'
        }
    } else {
        if lower {
            'f'
        } else {
            'F'
        }
    }
}

/// The text of the first `n` bytes: two hex digits per byte and, in the
/// hyphenated form, a hyphen after the 8th, 12th, 16th and 20th digit.
pub open spec fn spec_uuid_chars(bytes: Seq<u8>, lower: bool, hyphenated: bool, n: int) -> Seq<
    char,
>
    decreases n,
{
    if n <= 0 {
        Seq::empty()
    } else {
        let prev = spec_uuid_chars(bytes, lower, hyphenated, n - 1);
        let b = bytes[n - 1] as int;
        let digits = prev + seq![nibble_char(b / 16, lower), nibble_char(b % 16, lower)];
        if hyphenated && (n == 4 || n == 6 || n == 8 || n == 10) {
            digits + seq!['-']
        } else {
            digits
        }
    }
}

/// A 128-bit identifier held as sixteen raw bytes.
#[derive(Clone, Copy, Debug, PartialEq, Eq)]
pub struct UuidStorage(pub [u8; 16]);

/// The value of a hex digit character.
fn hex_digit(c: char) -> (r: Option<u8>)
    ensures
        match r {
            Some(v) => hex_val(c) == v as int && v < 16,
            None => hex_val(c) == -1,
        },
{
    if '0' <= c && c <= '9' {
        Some(((c as u32) - ('0' as u32)) as u8)
    } else if 'a' <= c && c <= 'f' {
        Some(((c as u32) - ('a' as u32) + 10) as u8)
    } else if 'A' <= c && c <= 'F' {
        Some(((c as u32) - ('A' as u32) + 10) as u8)
    } else {
        None
    }
}

/// The hex character of a nibble, as a one-character string.
fn nibble_str(n: u8, lower: bool) -> (r: &'static str)
    requires
        n < 16,
    ensures
        r@ == seq![nibble_char(n as int, lower)],
{
    proof {
        reveal_strlit("0");
        reveal_strlit("1");
        reveal_strlit("2");
        reveal_strlit("3");
        reveal_strlit("4");
        reveal_strlit("5");
        reveal_strlit("6");
        reveal_strlit("7");
        reveal_strlit("8");
        reveal_strlit("9");
        reveal_strlit("a");
        reveal_strlit("b");
        reveal_strlit("c");
        reveal_strlit("d");
        reveal_strlit("e");
        reveal_strlit("f");
        reveal_strlit("A");
        reveal_strlit("B");
        reveal_strlit("C");
        reveal_strlit("D");
        reveal_strlit("E");
        reveal_strlit("F");
    }
    match n {
        0 => "0",
        1 => "1",
        2 => "2",
        3 => "3",
        4 => "4",
        5 => "5",
        6 => "6",
        7 => "7",
        8 => "8",
        9 => "9",
        10 => if lower {
            "a"
        } else {
            "A"
        },
        11 => if lower {
            "b"
        } else {
            "B"
        },
        12 => if lower {
            "c"
        } else {
            "C"
        },
        13 => if lower {
            "d"
        } else {
            "D"
        },
        14 => if lower {
            "e"
        } else {
            "E"
        },
        _ => if lower {
            "f"
        } else {
            "F"
        },
    }
}

impl UuidStorage {
    /// Parses an identifier from 32 plain hex digits or from the
    /// hyphenated 8-4-4-4-12 form; any other text is rejected.
    #[verifier::rlimit(60)]
    pub fn parse(s: &str) -> (r: Option<Self>)
        ensures
            match r {
                Some(u) => spec_parse_uuid(s@) == Option::Some(u.0@),
                None => spec_parse_uuid(s@) is None,
            },
    {
        let n = s.unicode_len();
        if n == 32 {
            let mut bytes: Vec<u8> = Vec::new();
            let mut k: usize = 0;
            while k < 16
                invariant
                    n == 32,
                    s@.len() == 32,
                    k <= 16,
                    bytes@.len() == k,
                    forall|j: int| 0 <= j < 2 * k ==> hex_val(#[trigger] s@[j]) != -1,
                    forall|b: int|
                        0 <= b < k ==> #[trigger] bytes@[b] == (hex_val(s@[2 * b]) * 16 + hex_val(
                            s@[2 * b + 1],
                        )) as u8,
                decreases 16 - k,
            {
                let c1 = s.get_char(2 * k);
                let c2 = s.get_char(2 * k + 1);
                let h = match hex_digit(c1) {
                    Some(v) => v,
                    None => {
                        return None;
                    },
                };
                let l = match hex_digit(c2) {
                    Some(v) => v,
                    None => {
                        return None;
                    },
                };
                bytes.push(h * 16 + l);
                k += 1;
            }
            let data = [bytes[0], bytes[1], bytes[2], bytes[3], bytes[4], bytes[5], bytes[6], bytes[7], bytes[8], bytes[9], bytes[10], bytes[11], bytes[12], bytes[13], bytes[14], bytes[15]];
            proof {
                assert(data@ =~= spec_hex_bytes(s@, true));
            }
            Some(UuidStorage(data))
        } else if n == 36 {
            if s.get_char(8) != '-' || s.get_char(13) != '-' || s.get_char(18) != '-'
                || s.get_char(23) != '-' {
                return None;
            }
            let mut bytes: Vec<u8> = Vec::new();
            let mut k: usize = 0;
            while k < 16
                invariant
                    n == 36,
                    s@.len() == 36,
                    k <= 16,
                    bytes@.len() == k,
                    forall|j: int|
                        0 <= j < 2 * k ==> hex_val(#[trigger] s@[uuid36_digit_idx(j)]) != -1,
                    forall|b: int|
                        0 <= b < k ==> #[trigger] bytes@[b] == (hex_val(
                            s@[uuid36_digit_idx(2 * b)],
                        ) * 16 + hex_val(s@[uuid36_digit_idx(2 * b + 1)])) as u8,
                decreases 16 - k,
            {
                let j1 = Self::digit_idx(2 * k);
                let j2 = Self::digit_idx(2 * k + 1);
                let c1 = s.get_char(j1);
                let c2 = s.get_char(j2);
                let h = match hex_digit(c1) {
                    Some(v) => v,
                    None => {
                        return None;
                    },
                };
                let l = match hex_digit(c2) {
                    Some(v) => v,
                    None => {
                        return None;
                    },
                };
                bytes.push(h * 16 + l);
                k += 1;
            }
            let data = [bytes[0], bytes[1], bytes[2], bytes[3], bytes[4], bytes[5], bytes[6], bytes[7], bytes[8], bytes[9], bytes[10], bytes[11], bytes[12], bytes[13], bytes[14], bytes[15]];
            proof {
                assert(data@ =~= spec_hex_bytes(s@, false));
            }
            Some(UuidStorage(data))
        } else {
            None
        }
    }

    /// The string position of the `j`-th hex digit in the hyphenated form.
    fn digit_idx(j: usize) -> (r: usize)
        requires
            j < 32,
        ensures
            r == uuid36_digit_idx(j as int),
            r < 36,
    {
        if j < 8 {
            j
        } else if j < 12 {
            j + 1
        } else if j < 16 {
            j + 2
        } else if j < 20 {
            j + 3
        } else {
            j + 4
        }
    }

    /// Formats the identifier as hex text, in the chosen case, with or
    /// without the 8-4-4-4-12 hyphenation.
    pub fn to_string(&self, lower_case: bool, hyphenated: bool) -> (r: String)
        ensures
            r@ == spec_uuid_chars(self.0@, lower_case, hyphenated, 16),
    {
        let mut buf = String::new();
        let mut i: usize = 0;
        while i < 16
            invariant
                i <= 16,
                buf@ == spec_uuid_chars(self.0@, lower_case, hyphenated, i as int),
            decreases 16 - i,
        {
            let b = self.0[i];
            let hi = b / 16;
            let lo = b % 16;
            buf = buf.concat(nibble_str(hi, lower_case));
            buf = buf.concat(nibble_str(lo, lower_case));
            if hyphenated && (i == 3 || i == 5 || i == 7 || i == 9) {
                proof {
                    reveal_strlit("-");
                }
                buf = buf.concat("-");
            }
            proof {
                assert(buf@ =~= spec_uuid_chars(self.0@, lower_case, hyphenated, i as int + 1));
            }
            i += 1;
        }
        buf
    }
}

} // verus!
