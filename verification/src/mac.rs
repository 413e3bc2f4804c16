//! Hardware addresses of stations: six octets, written as hex pairs
//! separated by `:` or `-` (parsing) and formatted as lowercase hex
//! pairs separated by `:` (the daemon's command syntax).

use vstd::prelude::*;

verus! {

/// A character that may stand in a hex pair: `0-9`, `a-f` or `A-F`.
pub open spec fn is_hex_digit(c: char) -> bool {
    (48 <= c as u32 && c as u32 <= 57)  // '0' ..= '9'
    || (97 <= c as u32 && c as u32 <= 102)  // 'a' ..= 'f'
    || (65 <= c as u32 && c as u32 <= 70)  // 'A' ..= 'F'
}

/// The value of a hex digit.
pub open spec fn nibble(c: char) -> u8 {
    if 48 <= c as u32 && c as u32 <= 57 {
        (c as u32 - 48) as u8
    } else if 97 <= c as u32 && c as u32 <= 102 {
        (c as u32 - 87) as u8
    } else {
        (c as u32 - 55) as u8
    }
}

/// A delimiter between two octets of a written address.
pub open spec fn is_mac_sep(c: char) -> bool {
    c == ':' || c == '-'
}

/// What character position `i` of a written address must hold:
/// every third character is a delimiter, the rest are hex digits.
pub open spec fn mac_char_ok(s: Seq<char>, i: int) -> bool {
    if i % 3 == 2 {
        is_mac_sep(s[i])
    } else {
        is_hex_digit(s[i])
    }
}

/// A valid written hardware address: exactly 17 characters,
/// six hex pairs separated by `:` or `-`.
pub open spec fn mac_valid(s: Seq<char>) -> bool {
    s.len() == 17 && (forall|i: int| 0 <= i < 17 ==> #[trigger] mac_char_ok(s, i))
}

/// The octet written at character positions `i`, `i + 1`.
pub open spec fn mac_octet_at(s: Seq<char>, i: int) -> u8 {
    (nibble(s[i]) * 16 + nibble(s[i + 1])) as u8
}

/// The six octets denoted by a valid written address.
pub open spec fn mac_octets(s: Seq<char>) -> Seq<u8> {
    Seq::new(6, |k: int| mac_octet_at(s, 3 * k))
}

/// The lowercase hex digit for a value below 16.
pub open spec fn hex_lower_char(v: int) -> char {
    if v == 0 { '0' }
    else if v == 1 { '1' }
    else if v == 2 { '2' }
    else if v == 3 { '3' }
    else if v == 4 { '4' }
    else if v == 5 { '5' }
    else if v == 6 { '6' }
    else if v == 7 { '7' }
    else if v == 8 { '8' }
    else if v == 9 { '9' }
    else if v == 10 { 'a' }
    else if v == 11 { 'b' }
    else if v == 12 { 'c' }
    else if v == 13 { 'd' }
    else if v == 14 { 'e' }
    else { 'f' }
}

/// The canonical written form of six octets: lowercase hex pairs
/// separated by `:`.
pub open spec fn mac_str(o: Seq<u8>) -> Seq<char> {
    Seq::new(17, |i: int|
        if i % 3 == 2 {
            ':'
        } else if i % 3 == 0 {
            hex_lower_char(o[i / 3] as int / 16)
        } else {
            hex_lower_char(o[i / 3] as int % 16)
        })
}

/// A station's hardware address, held as its six octets.
#[derive(Debug, Clone, PartialEq, Eq)]
pub struct MacAddr {
    octets: Vec<u8>,
}

impl View for MacAddr {
    type V = Seq<u8>;

    closed spec fn view(&self) -> Seq<u8> {
        self.octets@
    }
}

impl MacAddr {
    /// Well-formed: exactly six octets.
    pub open spec fn wf(&self) -> bool {
        self@.len() == 6
    }

    /// Parses a written hardware address: `None` exactly on text that is
    /// not six hex pairs separated by `:` or `-`.
    pub fn parse_str(s: &str) -> (r: Option<MacAddr>)
        ensures
            match r {
                Some(m) => mac_valid(s@) && m.wf() && m@ == mac_octets(s@),
                None => !mac_valid(s@),
            },
    {
        let n = s.unicode_len();
        if n != 17 {
            return None;
        }
        let mut i: usize = 0;
        while i < 17
            invariant
                s@.len() == 17,
                i <= 17,
                forall|j: int| 0 <= j < i ==> #[trigger] mac_char_ok(s@, j),
            decreases 17 - i,
        {
            if !char_ok(s, i) {
                proof {
                    assert(!mac_char_ok(s@, i as int));
                }
                return None;
            }
            i += 1;
        }
        let mut octets: Vec<u8> = Vec::new();
        let mut k: usize = 0;
        while k < 6
            invariant
                s@.len() == 17,
                mac_valid(s@),
                k <= 6,
                octets@.len() == k,
                forall|j: int| 0 <= j < k ==> octets@[j] == #[trigger] mac_octets(s@)[j],
            decreases 6 - k,
        {
            proof {
                assert(mac_char_ok(s@, 3 * k as int));
                assert(mac_char_ok(s@, 3 * k as int + 1));
            }
            let b = read_octet(s, 3 * k);
            octets.push(b);
            k += 1;
        }
        proof {
            assert(octets@ =~= mac_octets(s@));
        }
        Some(MacAddr { octets })
    }

    /// Formats the address as lowercase hex pairs separated by `:`,
    /// the form the daemon's `STA` command takes.
    pub fn to_hex_string(&self) -> (r: String)
        requires
            self.wf(),
        ensures
            r@ == mac_str(self@),
    {
        proof {
            reveal_strlit(":");
        }
        let mut r = String::new();
        append_octet(&mut r, self.octets[0]);
        r.append(":");
        append_octet(&mut r, self.octets[1]);
        r.append(":");
        append_octet(&mut r, self.octets[2]);
        r.append(":");
        append_octet(&mut r, self.octets[3]);
        r.append(":");
        append_octet(&mut r, self.octets[4]);
        r.append(":");
        append_octet(&mut r, self.octets[5]);
        proof {
            assert(r@.len() == 17);
            assert forall|i: int| 0 <= i < 17 implies r@[i] == mac_str(self@)[i] by {
                assert(r@[0] == mac_str(self@)[0] && r@[1] == mac_str(self@)[1]);
                assert(r@[2] == mac_str(self@)[2] && r@[3] == mac_str(self@)[3]);
                assert(r@[4] == mac_str(self@)[4] && r@[5] == mac_str(self@)[5]);
                assert(r@[6] == mac_str(self@)[6] && r@[7] == mac_str(self@)[7]);
                assert(r@[8] == mac_str(self@)[8] && r@[9] == mac_str(self@)[9]);
                assert(r@[10] == mac_str(self@)[10] && r@[11] == mac_str(self@)[11]);
                assert(r@[12] == mac_str(self@)[12] && r@[13] == mac_str(self@)[13]);
                assert(r@[14] == mac_str(self@)[14] && r@[15] == mac_str(self@)[15]);
                assert(r@[16] == mac_str(self@)[16]);
            }
            assert(r@ =~= mac_str(self@));
        }
        r
    }
}

/// The value of the hex digit `c`, or `None` if `c` is no hex digit.
fn hex_digit_val(c: char) -> (r: Option<u8>)
    ensures
        match r {
            Some(v) => is_hex_digit(c) && v == nibble(c) && v < 16,
            None => !is_hex_digit(c),
        },
{
    let u = c as u32;
    if 48 <= u && u <= 57 {
        Some((u - 48) as u8)
    } else if 97 <= u && u <= 102 {
        Some((u - 87) as u8)
    } else if 65 <= u && u <= 70 {
        Some((u - 55) as u8)
    } else {
        None
    }
}

/// Whether the character at position `i` is what a written address
/// must hold there.
fn char_ok(s: &str, i: usize) -> (r: bool)
    requires
        i < s@.len(),
        i < 17,
    ensures
        r == mac_char_ok(s@, i as int),
{
    let c = s.get_char(i);
    if i % 3 == 2 {
        c == ':' || c == '-'
    } else {
        match hex_digit_val(c) {
            Some(_) => true,
            None => false,
        }
    }
}

/// Reads the octet written at character positions `i`, `i + 1`.
fn read_octet(s: &str, i: usize) -> (r: u8)
    requires
        i + 2 <= s@.len(),
        s@.len() <= usize::MAX,
        is_hex_digit(s@[i as int]),
        is_hex_digit(s@[i as int + 1]),
    ensures
        r == mac_octet_at(s@, i as int),
{
    let hi = match hex_digit_val(s.get_char(i)) {
        Some(v) => v,
        None => 0,
    };
    let lo = match hex_digit_val(s.get_char(i + 1)) {
        Some(v) => v,
        None => 0,
    };
    hi * 16 + lo
}

/// Appends the two lowercase hex digits of one octet.
fn append_octet(r: &mut String, b: u8)
    ensures
        final(r)@ == old(r)@ + seq![
            hex_lower_char(b as int / 16),
            hex_lower_char(b as int % 16),
        ],
{
    r.append(hex_digit_str(b / 16));
    r.append(hex_digit_str(b % 16));
    proof {
        assert(r@ =~= old(r)@ + seq![
            hex_lower_char(b as int / 16),
            hex_lower_char(b as int % 16),
        ]);
    }
}

/// The one-character string for a value below 16, in lowercase hex.
fn hex_digit_str(v: u8) -> (r: &'static str)
    requires
        v < 16,
    ensures
        r@.len() == 1,
        r@[0] == hex_lower_char(v as int),
{
    proof {
        reveal_strlit("0");
        reveal_strlit("1");
        reveal_strlit("2");
        reveal_strlit("3");
        reveal_strlit("4");
        reveal_strlit("5");
        reveal_strlit("6");
        reveal_strlit("7");
        reveal_strlit("8");
        reveal_strlit("9");
        reveal_strlit("a");
        reveal_strlit("b");
        reveal_strlit("c");
        reveal_strlit("d");
        reveal_strlit("e");
        reveal_strlit("f");
    }
    if v == 0 { "0" }
    else if v == 1 { "1" }
    else if v == 2 { "2" }
    else if v == 3 { "3" }
    else if v == 4 { "4" }
    else if v == 5 { "5" }
    else if v == 6 { "6" }
    else if v == 7 { "7" }
    else if v == 8 { "8" }
    else if v == 9 { "9" }
    else if v == 10 { "a" }
    else if v == 11 { "b" }
    else if v == 12 { "c" }
    else if v == 13 { "d" }
    else if v == 14 { "e" }
    else { "f" }
}

/// The digit written for a value below 16 reads back as that value.
pub proof fn lemma_nibble_of_hex_lower(v: int)
    requires
        0 <= v < 16,
    ensures
        is_hex_digit(hex_lower_char(v)),
        nibble(hex_lower_char(v)) == v,
{
}

/// A valid written address contains no space, so it is a single
/// whitespace-delimited token.
pub proof fn lemma_mac_no_space(s: Seq<char>)
    requires
        mac_valid(s),
    ensures
        forall|i: int| 0 <= i < s.len() ==> s[i] != ' ',
{
    assert forall|i: int| 0 <= i < s.len() implies s[i] != ' ' by {
        assert(mac_char_ok(s, i));
    }
}

/// Textual round trip: formatting six octets yields a valid written
/// address that denotes exactly those octets.
pub proof fn lemma_mac_round_trip(o: Seq<u8>)
    requires
        o.len() == 6,
    ensures
        mac_valid(mac_str(o)),
        mac_octets(mac_str(o)) == o,
{
    let s = mac_str(o);
    assert forall|i: int| 0 <= i < 17 implies #[trigger] mac_char_ok(s, i) by {
        if i % 3 != 2 {
            let k = i / 3;
            assert(0 <= k < 6);
            if i % 3 == 0 {
                lemma_nibble_of_hex_lower(o[k] as int / 16);
            } else {
                lemma_nibble_of_hex_lower(o[k] as int % 16);
            }
        }
    }
    assert forall|k: int| 0 <= k < 6 implies #[trigger] mac_octets(s)[k] == o[k] by {
        let i = 3 * k;
        assert(i % 3 == 0 && (i + 1) % 3 == 1);
        assert(i / 3 == k && (i + 1) / 3 == k);
        lemma_nibble_of_hex_lower(o[k] as int / 16);
        lemma_nibble_of_hex_lower(o[k] as int % 16);
        assert(s[i] == hex_lower_char(o[k] as int / 16));
        assert(s[i + 1] == hex_lower_char(o[k] as int % 16));
        assert(mac_octet_at(s, i) == ((o[k] as int / 16) * 16 + o[k] as int % 16) as u8);
    }
    assert(mac_octets(mac_str(o)) =~= o);
}

} // verus!
