use vstd::prelude::*;
use vstd::string::StrSliceExecFns;
use vstd::string::StringExecFns;
use crate::chunks::{chunks_of, cut, views};

verus! {

pub const NOMOD: u32 = 0;
pub const NOFAIL: u32 = 1;
pub const EASY: u32 = 2;
pub const TOUCHDEVICE: u32 = 4;
pub const HIDDEN: u32 = 8;
pub const HARDROCK: u32 = 16;
pub const SUDDENDEATH: u32 = 32;
pub const DOUBLETIME: u32 = 64;
pub const RELAX: u32 = 128;
pub const HALFTIME: u32 = 256;
pub const NIGHTCORE: u32 = 576;
pub const FLASHLIGHT: u32 = 1024;
pub const SPUNOUT: u32 = 4096;
pub const PERFECT: u32 = 16416;
pub const FADEIN: u32 = 1048576;
pub const SCOREV2: u32 = 536870912;
pub const MIRROR: u32 = 1073741824;

/// Every bit that some acronym stands for.
pub const KNOWN_BITS: u32 = 1074812927;

/// Number of entries in the encoding table.
pub const TABLE_LEN: usize = 15;

/// A set of gameplay modifiers, held as a bit mask. Some named modifiers are
/// the union of others (`NIGHTCORE` includes `DOUBLETIME`, `PERFECT` includes
/// `SUDDENDEATH`).
#[derive(Clone, Copy, Debug, PartialEq, Eq, Structural)]
pub struct OsuMods {
    pub bits: u32,
}

/// `bits` holds every bit of `pattern`.
pub open spec fn has(bits: u32, pattern: u32) -> bool {
    bits & pattern == pattern
}

/// The acronym of the `k`-th entry of the encoding table, in output order.
pub open spec fn acr(k: int) -> Seq<char> {
    if k == 0 { seq!['N', 'F'] }
    else if k == 1 { seq!['E', 'Z'] }
    else if k == 2 { seq!['T', 'D'] }
    else if k == 3 { seq!['H', 'D'] }
    else if k == 4 { seq!['N', 'C'] }
    else if k == 5 { seq!['D', 'T'] }
    else if k == 6 { seq!['H', 'T'] }
    else if k == 7 { seq!['F', 'L'] }
    else if k == 8 { seq!['H', 'R'] }
    else if k == 9 { seq!['P', 'F'] }
    else if k == 10 { seq!['S', 'D'] }
    else if k == 11 { seq!['S', 'O'] }
    else if k == 12 { seq!['R', 'X'] }
    else if k == 13 { seq!['F', 'D'] }
    else { seq!['M', 'R'] }
}

/// The bit pattern of the `k`-th entry of the encoding table.
pub open spec fn pat(k: int) -> u32 {
    if k == 0 { NOFAIL }
    else if k == 1 { EASY }
    else if k == 2 { TOUCHDEVICE }
    else if k == 3 { HIDDEN }
    else if k == 4 { NIGHTCORE }
    else if k == 5 { DOUBLETIME }
    else if k == 6 { HALFTIME }
    else if k == 7 { FLASHLIGHT }
    else if k == 8 { HARDROCK }
    else if k == 9 { PERFECT }
    else if k == 10 { SUDDENDEATH }
    else if k == 11 { SPUNOUT }
    else if k == 12 { RELAX }
    else if k == 13 { FADEIN }
    else { MIRROR }
}

/// Whether the `k`-th acronym is written for `bits`: its pattern is present
/// and no alias that covers it is present too.
pub open spec fn emits(bits: u32, k: int) -> bool {
    has(bits, pat(k)) && !(k == 5 && has(bits, NIGHTCORE)) && !(k == 10 && has(bits, PERFECT))
}

/// The acronyms written for `bits` among the first `k` table entries.
pub open spec fn emitted(bits: u32, k: nat) -> Seq<Seq<char>>
    decreases k,
{
    if k == 0 {
        seq![]
    } else if emits(bits, k - 1) {
        emitted(bits, (k - 1) as nat).push(acr(k - 1))
    } else {
        emitted(bits, (k - 1) as nat)
    }
}

/// The acronyms that make up the encoding of `bits`, in order.
pub open spec fn acronyms_of(bits: u32) -> Seq<Seq<char>> {
    if bits == 0 {
        seq![seq!['N', 'M']]
    } else {
        emitted(bits, TABLE_LEN as nat)
    }
}

/// The text encoding of `bits`.
pub open spec fn encode_spec(bits: u32) -> Seq<char> {
    acronyms_of(bits).flatten()
}

/// The bits an upper-case acronym stands for, if it is one.
pub open spec fn acronym_bits(a: Seq<char>) -> Option<u32> {
    if a.len() != 2 {
        None
    } else {
        match (a[0], a[1]) {
            ('N', 'M') => Some(NOMOD),
            ('N', 'F') => Some(NOFAIL),
            ('E', 'Z') => Some(EASY),
            ('T', 'D') => Some(TOUCHDEVICE),
            ('H', 'D') => Some(HIDDEN),
            ('H', 'R') => Some(HARDROCK),
            ('S', 'D') => Some(SUDDENDEATH),
            ('D', 'T') => Some(DOUBLETIME),
            ('R', 'X') => Some(RELAX),
            ('H', 'T') => Some(HALFTIME),
            ('N', 'C') => Some(NIGHTCORE),
            ('F', 'L') => Some(FLASHLIGHT),
            ('S', 'O') => Some(SPUNOUT),
            ('P', 'F') => Some(PERFECT),
            ('F', 'D') => Some(FADEIN),
            ('M', 'R') => Some(MIRROR),
            _ => None,
        }
    }
}

/// The bits of one chunk under lenient decoding: unknown chunks count for nothing.
pub open spec fn chunk_bits(a: Seq<char>) -> u32 {
    match acronym_bits(a) {
        Some(b) => b,
        None => 0,
    }
}

/// Union of the bits of every chunk, folded from the left.
pub open spec fn union_of(cs: Seq<Seq<char>>) -> u32
    decreases cs.len(),
{
    if cs.len() == 0 {
        0
    } else {
        union_of(cs.drop_last()) | chunk_bits(cs.last())
    }
}

/// Lenient decoding of upper-case text: the union over its two-character chunks.
pub open spec fn lenient_bits(t: Seq<char>) -> u32 {
    union_of(chunks_of(t, 2))
}

/// The upper-case form of a text, as `str::to_uppercase` gives it.
pub uninterp spec fn upper_of(s: Seq<char>) -> Seq<char>;

/// Every character is an upper-case ASCII letter.
pub open spec fn all_upper_ascii(s: Seq<char>) -> bool {
    forall|i: int| 0 <= i < s.len() ==> 'A' <= #[trigger] s[i] <= 'Z'
}

/// Relies on `str::to_uppercase` for case-insensitive acronyms: the result
/// depends on the characters alone, and upper-case ASCII letters, which have
/// no other upper-case form, stay as they are.
#[verifier::external_body]
fn to_upper(s: &str) -> (r: String)
    ensures
        r@ == upper_of(s@),
        all_upper_ascii(s@) ==> r@ == s@,
{
    s.to_uppercase()
}

/// Acronym and bit pattern of the `k`-th table entry.
fn table_entry(k: usize) -> (r: (&'static str, u32))
    requires
        k < TABLE_LEN,
    ensures
        r.0@ == acr(k as int),
        r.1 == pat(k as int),
{
    if k == 0 {
        proof { reveal_strlit("NF"); }
        ("NF", NOFAIL)
    } else if k == 1 {
        proof { reveal_strlit("EZ"); }
        ("EZ", EASY)
    } else if k == 2 {
        proof { reveal_strlit("TD"); }
        ("TD", TOUCHDEVICE)
    } else if k == 3 {
        proof { reveal_strlit("HD"); }
        ("HD", HIDDEN)
    } else if k == 4 {
        proof { reveal_strlit("NC"); }
        ("NC", NIGHTCORE)
    } else if k == 5 {
        proof { reveal_strlit("DT"); }
        ("DT", DOUBLETIME)
    } else if k == 6 {
        proof { reveal_strlit("HT"); }
        ("HT", HALFTIME)
    } else if k == 7 {
        proof { reveal_strlit("FL"); }
        ("FL", FLASHLIGHT)
    } else if k == 8 {
        proof { reveal_strlit("HR"); }
        ("HR", HARDROCK)
    } else if k == 9 {
        proof { reveal_strlit("PF"); }
        ("PF", PERFECT)
    } else if k == 10 {
        proof { reveal_strlit("SD"); }
        ("SD", SUDDENDEATH)
    } else if k == 11 {
        proof { reveal_strlit("SO"); }
        ("SO", SPUNOUT)
    } else if k == 12 {
        proof { reveal_strlit("RX"); }
        ("RX", RELAX)
    } else if k == 13 {
        proof { reveal_strlit("FD"); }
        ("FD", FADEIN)
    } else {
        proof { reveal_strlit("MR"); }
        ("MR", MIRROR)
    }
}

/// The bits an upper-case acronym stands for.
fn lookup(a: &str) -> (r: Option<u32>)
    ensures
        r == acronym_bits(a@),
{
    if a.unicode_len() != 2 {
        return None;
    }
    let c0 = a.get_char(0);
    let c1 = a.get_char(1);
    match (c0, c1) {
        ('N', 'M') => Some(NOMOD),
        ('N', 'F') => Some(NOFAIL),
        ('E', 'Z') => Some(EASY),
        ('T', 'D') => Some(TOUCHDEVICE),
        ('H', 'D') => Some(HIDDEN),
        ('N', 'C') => Some(NIGHTCORE),
        ('D', 'T') => Some(DOUBLETIME),
        ('H', 'T') => Some(HALFTIME),
        ('F', 'L') => Some(FLASHLIGHT),
        ('H', 'R') => Some(HARDROCK),
        ('P', 'F') => Some(PERFECT),
        ('S', 'D') => Some(SUDDENDEATH),
        ('S', 'O') => Some(SPUNOUT),
        ('R', 'X') => Some(RELAX),
        ('F', 'D') => Some(FADEIN),
        ('M', 'R') => Some(MIRROR),
        _ => None,
    }
}

/// An error of strict decoding: the text is no known acronym.
#[derive(Debug)]
pub enum ModsError {
    UnknownAcronym { acronym: String },
}

/// Position of an acronym in the encoding table, or `TABLE_LEN` for none.
pub open spec fn table_index(a: Seq<char>) -> int {
    if a.len() != 2 {
        TABLE_LEN as int
    } else {
        match (a[0], a[1]) {
        ('N', 'F') => 0,
        ('E', 'Z') => 1,
        ('T', 'D') => 2,
        ('H', 'D') => 3,
        ('N', 'C') => 4,
        ('D', 'T') => 5,
        ('H', 'T') => 6,
        ('F', 'L') => 7,
        ('H', 'R') => 8,
        ('P', 'F') => 9,
        ('S', 'D') => 10,
        ('S', 'O') => 11,
        ('R', 'X') => 12,
        ('F', 'D') => 13,
        ('M', 'R') => 14,
            _ => TABLE_LEN as int,
        }
    }
}

/// Every bit of `bits` has an acronym, and an alias's extra bit never stands
/// without the bit it extends.
pub open spec fn representable(bits: u32) -> bool {
    bits & !KNOWN_BITS == 0 && (bits & 512 == 512 ==> bits & DOUBLETIME == DOUBLETIME) && (bits
        & 16384 == 16384 ==> bits & SUDDENDEATH == SUDDENDEATH)
}

/// What the first `k` table entries add to the decoded bits of an encoding.
pub open spec fn decoded_prefix(bits: u32, k: nat) -> u32
    decreases k,
{
    if k == 0 {
        0
    } else {
        decoded_prefix(bits, (k - 1) as nat) | (if emits(bits, k - 1) {
            pat(k - 1)
        } else {
            0
        })
    }
}

proof fn lemma_entry(k: int)
    requires
        0 <= k < TABLE_LEN,
    ensures
        acr(k).len() == 2,
        all_upper_ascii(acr(k)),
        acronym_bits(acr(k)) == Some(pat(k)),
        table_index(acr(k)) == k,
{
    if k == 0 {
    } else if k == 1 {
    } else if k == 2 {
    } else if k == 3 {
    } else if k == 4 {
    } else if k == 5 {
    } else if k == 6 {
    } else if k == 7 {
    } else if k == 8 {
    } else if k == 9 {
    } else if k == 10 {
    } else if k == 11 {
    } else if k == 12 {
    } else if k == 13 {
    } else if k == 14 {
    }
}

proof fn lemma_emitted(bits: u32, k: nat)
    requires
        k <= TABLE_LEN,
    ensures
        emitted(bits, k).no_duplicates(),
        forall|i: int|
            0 <= i < emitted(bits, k).len() ==> {
                let j = table_index(#[trigger] emitted(bits, k)[i]);
                0 <= j < k && emits(bits, j) && acr(j) == emitted(bits, k)[i]
            },
        forall|j: int| 0 <= j < k && emits(bits, j) ==> emitted(bits, k).contains(#[trigger] acr(j)),
        union_of(emitted(bits, k)) == decoded_prefix(bits, k),
    decreases k,
{
    if k > 0 {
        lemma_emitted(bits, (k - 1) as nat);
        lemma_entry(k - 1);
        let prev = emitted(bits, (k - 1) as nat);
        if emits(bits, k - 1) {
            let cur = prev.push(acr(k - 1));
            assert(cur.drop_last() =~= prev);
            assert(!prev.contains(acr(k - 1))) by {
                if prev.contains(acr(k - 1)) {
                    let i = choose|i: int| 0 <= i < prev.len() && prev[i] == acr(k - 1);
                    assert(table_index(prev[i]) < k - 1);
                }
            }
            assert forall|i: int| 0 <= i < cur.len() implies {
                let j = table_index(#[trigger] cur[i]);
                0 <= j < k && emits(bits, j) && acr(j) == cur[i]
            } by {
                if i < prev.len() {
                    assert(cur[i] == prev[i]);
                }
            }
            assert forall|j: int| 0 <= j < k && emits(bits, j) implies cur.contains(
                #[trigger] acr(j),
            ) by {
                if j < k - 1 {
                    let i = choose|i: int| 0 <= i < prev.len() && prev[i] == acr(j);
                    assert(cur[i] == acr(j));
                } else {
                    assert(cur[prev.len() as int] == acr(j));
                }
            }
        } else {
            let x = decoded_prefix(bits, (k - 1) as nat);
            assert(x | 0u32 == x) by (bit_vector);
        }
    }
}

proof fn lemma_flatten_upper(cs: Seq<Seq<char>>)
    requires
        forall|i: int| 0 <= i < cs.len() ==> all_upper_ascii(#[trigger] cs[i]),
    ensures
        all_upper_ascii(cs.flatten()),
    decreases cs.len(),
{
    if cs.len() > 0 {
        let rest = cs.drop_first();
        assert forall|i: int| 0 <= i < rest.len() implies all_upper_ascii(#[trigger] rest[i]) by {
            assert(rest[i] == cs[i + 1]);
        }
        lemma_flatten_upper(rest);
        let f = cs.flatten();
        assert(f == cs[0] + rest.flatten());
        assert forall|i: int| 0 <= i < f.len() implies 'A' <= #[trigger] f[i] <= 'Z' by {
            assert(all_upper_ascii(cs[0]));
            if i < cs[0].len() {
                assert(f[i] == cs[0][i]);
            } else {
                assert(f[i] == rest.flatten()[i - cs[0].len()]);
            }
        }
    }
}

proof fn lemma_chunks_of_flatten(cs: Seq<Seq<char>>)
    requires
        forall|i: int| 0 <= i < cs.len() ==> (#[trigger] cs[i]).len() == 2,
    ensures
        chunks_of(cs.flatten(), 2) == cs,
    decreases cs.len(),
{
    if cs.len() == 0 {
        assert(chunks_of(cs.flatten(), 2) =~= cs);
    } else {
        let rest = cs.drop_first();
        assert forall|i: int| 0 <= i < rest.len() implies (#[trigger] rest[i]).len() == 2 by {
            assert(rest[i] == cs[i + 1]);
        }
        lemma_chunks_of_flatten(rest);
        let f = cs.flatten();
        assert(f == cs[0] + rest.flatten());
        assert(f.subrange(0, 2) =~= cs[0]);
        assert(f.subrange(2, f.len() as int) =~= rest.flatten());
        if f.len() <= 2 {
            assert(rest.flatten().len() == 0);
            assert(rest.flatten() =~= Seq::<char>::empty());
            assert(chunks_of(Seq::<char>::empty(), 2) =~= Seq::<Seq<char>>::empty());
            assert(rest.len() == 0);
            assert(f =~= cs[0]);
            assert(cs =~= seq![cs[0]]);
        } else {
            assert(cs =~= seq![cs[0]] + rest);
        }
    }
}

#[verifier::rlimit(50)]
proof fn lemma_bits_cover(b: u32)
    requires
        representable(b),
    ensures
        decoded_prefix(b, TABLE_LEN as nat) == b,
{
    reveal_with_fuel(decoded_prefix, 16);
    assert((((((((((((((((0u32
            | (if b & 1u32 == 1u32 { 1u32 } else { 0u32 }))
            | (if b & 2u32 == 2u32 { 2u32 } else { 0u32 }))
            | (if b & 4u32 == 4u32 { 4u32 } else { 0u32 }))
            | (if b & 8u32 == 8u32 { 8u32 } else { 0u32 }))
            | (if b & 576u32 == 576u32 { 576u32 } else { 0u32 }))
            | (if b & 64u32 == 64u32 && !(b & 576u32 == 576u32) { 64u32 } else { 0u32 }))
            | (if b & 256u32 == 256u32 { 256u32 } else { 0u32 }))
            | (if b & 1024u32 == 1024u32 { 1024u32 } else { 0u32 }))
            | (if b & 16u32 == 16u32 { 16u32 } else { 0u32 }))
            | (if b & 16416u32 == 16416u32 { 16416u32 } else { 0u32 }))
            | (if b & 32u32 == 32u32 && !(b & 16416u32 == 16416u32) { 32u32 } else { 0u32 }))
            | (if b & 4096u32 == 4096u32 { 4096u32 } else { 0u32 }))
            | (if b & 128u32 == 128u32 { 128u32 } else { 0u32 }))
            | (if b & 1048576u32 == 1048576u32 { 1048576u32 } else { 0u32 }))
            | (if b & 1073741824u32 == 1073741824u32 { 1073741824u32 } else { 0u32 })) == b) by (bit_vector)
        requires
            b & !1074812927u32 == 0u32,
            b & 512u32 == 512u32 ==> b & 64u32 == 64u32,
            b & 16384u32 == 16384u32 ==> b & 32u32 == 32u32,
    ;
}

/// The acronyms of an encoding are exactly its two-character chunks, none of
/// them repeated; a set holding the full pattern of an alias is written with
/// the alias's acronym and never with the acronym it covers.
pub proof fn lemma_alias_written_once(m: OsuMods)
    ensures
        chunks_of(encode_spec(m.bits), 2) == acronyms_of(m.bits),
        acronyms_of(m.bits).no_duplicates(),
        has(m.bits, NIGHTCORE) ==> acronyms_of(m.bits).contains(seq!['N', 'C'])
            && !acronyms_of(m.bits).contains(seq!['D', 'T']),
        has(m.bits, PERFECT) ==> acronyms_of(m.bits).contains(seq!['P', 'F'])
            && !acronyms_of(m.bits).contains(seq!['S', 'D']),
{
    let b = m.bits;
    lemma_emitted(b, TABLE_LEN as nat);
    let cs = acronyms_of(b);
    if b == 0 {
        assert(cs.no_duplicates());
        assert(cs.flatten() =~= seq!['N', 'M']) by {
            cs.lemma_flatten_one_element();
        }
        assert(chunks_of(seq!['N', 'M'], 2) =~= cs);
        assert(b & 576u32 != 576u32 && b & 16416u32 != 16416u32) by (bit_vector)
            requires
                b == 0u32,
        ;
    } else {
        assert forall|i: int| 0 <= i < cs.len() implies (#[trigger] cs[i]).len() == 2 by {
            lemma_entry(table_index(cs[i]));
        }
        lemma_chunks_of_flatten(cs);
        lemma_entry(4);
        lemma_entry(5);
        lemma_entry(9);
        lemma_entry(10);
        if has(b, NIGHTCORE) {
            assert(emits(b, 4));
            if cs.contains(acr(5)) {
                let i = choose|i: int| 0 <= i < cs.len() && cs[i] == acr(5);
                assert(table_index(cs[i]) == 5);
            }
        }
        if has(b, PERFECT) {
            assert(emits(b, 9));
            if cs.contains(acr(10)) {
                let i = choose|i: int| 0 <= i < cs.len() && cs[i] == acr(10);
                assert(table_index(cs[i]) == 10);
            }
        }
    }
}

/// Encoding writes upper-case letters only, and lenient decoding of the
/// encoding gives back every set whose bits all have acronyms.
pub proof fn lemma_round_trip(m: OsuMods)
    requires
        representable(m.bits),
    ensures
        all_upper_ascii(encode_spec(m.bits)),
        lenient_bits(encode_spec(m.bits)) == m.bits,
{
    let b = m.bits;
    lemma_alias_written_once(m);
    lemma_emitted(b, TABLE_LEN as nat);
    let cs = acronyms_of(b);
    if b == 0 {
        assert(all_upper_ascii(seq!['N', 'M']));
        assert(cs.flatten() =~= seq!['N', 'M']) by {
            cs.lemma_flatten_one_element();
        }
        assert(cs.drop_last() =~= Seq::<Seq<char>>::empty());
        assert(union_of(Seq::<Seq<char>>::empty()) == 0);
        assert(chunk_bits(cs.last()) == 0);
        assert(union_of(cs) == 0u32 | 0u32);
        assert(0u32 | 0u32 == 0u32) by (bit_vector);
    } else {
        assert forall|i: int| 0 <= i < cs.len() implies all_upper_ascii(#[trigger] cs[i]) by {
            lemma_entry(table_index(cs[i]));
        }
        lemma_flatten_upper(cs);
        lemma_bits_cover(b);
    }
}

/// An upper-case pair of characters that is no acronym, which strict
/// decoding refuses, decodes leniently to the empty set.
pub proof fn lemma_unknown_pair(t: Seq<char>)
    requires
        t.len() == 2,
        acronym_bits(t) is None,
    ensures
        lenient_bits(t) == 0,
{
    assert(chunks_of(t, 2) =~= seq![t]);
    assert(chunks_of(t, 2).drop_last() =~= Seq::<Seq<char>>::empty());
    assert(union_of(Seq::<Seq<char>>::empty()) == 0);
    assert(chunk_bits(t) == 0);
    assert(0u32 | 0u32 == 0u32) by (bit_vector);
}

/// Each text upper-cased.
pub open spec fn upper_each(ts: Seq<Seq<char>>) -> Seq<Seq<char>> {
    ts.map_values(|t: Seq<char>| upper_of(t))
}

/// Whether every text of a list is a known acronym.
pub open spec fn all_known(ts: Seq<Seq<char>>) -> bool {
    forall|i: int| 0 <= i < ts.len() ==> (#[trigger] acronym_bits(ts[i])) is Some
}

impl OsuMods {
    pub fn empty() -> (r: OsuMods)
        ensures
            r.bits == 0,
    {
        OsuMods { bits: 0 }
    }

    pub fn from_bits(bits: u32) -> (r: OsuMods)
        ensures
            r.bits == bits,
    {
        OsuMods { bits }
    }

    pub fn is_empty(&self) -> (r: bool)
        ensures
            r == (self.bits == 0),
    {
        self.bits == 0
    }

    /// Tests the full bit pattern, so an alias is contained only with all its bits.
    pub fn contains(&self, pattern: u32) -> (r: bool)
        ensures
            r == has(self.bits, pattern),
    {
        self.bits & pattern == pattern
    }

    pub fn union(&self, other: OsuMods) -> (r: OsuMods)
        ensures
            r.bits == self.bits | other.bits,
    {
        OsuMods { bits: self.bits | other.bits }
    }

    /// Concatenates, in table order, the acronym of every modifier present;
    /// an alias is written alone, without the acronyms it covers. The empty
    /// set is written `NM`.
    pub fn encode(&self) -> (r: String)
        ensures
            r@ == encode_spec(self.bits),
    {
        let mut res = String::new();
        if self.bits == 0 {
            res.append("NM");
            proof {
                reveal_strlit("NM");
                seq![seq!['N', 'M']].lemma_flatten_one_element();
            }
            return res;
        }
        let mut k: usize = 0;
        while k < TABLE_LEN
            invariant
                k <= TABLE_LEN,
                self.bits != 0,
                res@ == emitted(self.bits, k as nat).flatten(),
            decreases TABLE_LEN - k,
        {
            let (a, p) = table_entry(k);
            let show = self.bits & p == p && !(k == 5 && self.bits & NIGHTCORE == NIGHTCORE)
                && !(k == 10 && self.bits & PERFECT == PERFECT);
            if show {
                proof {
                    emitted(self.bits, k as nat).lemma_flatten_push(a@);
                }
                res.append(a);
            }
            k += 1;
        }
        res
    }

    /// Decodes already upper-cased text: its two-character chunks are read as
    /// acronyms and unknown chunks are dropped.
    pub fn decode_folded(t: &str) -> (r: OsuMods)
        ensures
            r.bits == lenient_bits(t@),
    {
        let parts = cut(t, 2);
        let mut acc: u32 = 0;
        let mut i: usize = 0;
        while i < parts.len()
            invariant
                i <= parts@.len(),
                views(parts@) == chunks_of(t@, 2),
                acc == union_of(views(parts@).take(i as int)),
            decreases parts@.len() - i,
        {
            let b = match lookup(parts[i].as_str()) {
                Some(b) => b,
                None => 0,
            };
            proof {
                let cs = views(parts@);
                assert(cs.take(i + 1).drop_last() =~= cs.take(i as int));
                assert(cs.take(i + 1).last() == parts@[i as int]@);
            }
            acc = acc | b;
            i += 1;
        }
        proof {
            assert(views(parts@).take(parts@.len() as int) =~= views(parts@));
        }
        OsuMods { bits: acc }
    }

    /// Lenient, case-insensitive decoding of concatenated acronyms.
    pub fn decode_lenient(s: &str) -> (r: OsuMods)
        ensures
            r.bits == lenient_bits(upper_of(s@)),
            all_upper_ascii(s@) ==> r.bits == lenient_bits(s@),
    {
        let up = to_upper(s);
        OsuMods::decode_folded(up.as_str())
    }

    /// Strict decoding of one already upper-cased acronym.
    pub fn decode_one_folded(t: &str) -> (r: Result<OsuMods, ModsError>)
        ensures
            acronym_bits(t@) is Some <==> r is Ok,
            r matches Ok(m) ==> Some(m.bits) == acronym_bits(t@),
            r matches Err(ModsError::UnknownAcronym { acronym }) ==> acronym@ == t@,
    {
        match lookup(t) {
            Some(bits) => Ok(OsuMods { bits }),
            None => Err(ModsError::UnknownAcronym { acronym: String::from_str(t) }),
        }
    }

    /// Strict, case-insensitive decoding of a list of acronyms: the union of
    /// each one's bits, or the first that is not known.
    pub fn decode_many(items: &Vec<String>) -> (r: Result<OsuMods, ModsError>)
        ensures
            r is Ok <==> all_known(upper_each(views(items@))),
            r matches Ok(m) ==> m.bits == union_of(upper_each(views(items@))),
            r matches Err(ModsError::UnknownAcronym { acronym }) ==> exists|i: int|
                0 <= i < items@.len() && acronym@ == items@[i]@
                    && acronym_bits(upper_of(items@[i]@)) is None
                    && all_known(upper_each(views(items@)).take(i)),
    {
        let ghost us = upper_each(views(items@));
        let mut acc: u32 = 0;
        let mut i: usize = 0;
        while i < items.len()
            invariant
                i <= items@.len(),
                us == upper_each(views(items@)),
                all_known(us.take(i as int)),
                acc == union_of(us.take(i as int)),
            decreases items@.len() - i,
        {
            match OsuMods::decode_one(items[i].as_str()) {
                Ok(m) => {
                    proof {
                        assert(us[i as int] == upper_of(items@[i as int]@));
                        assert(us.take(i + 1).drop_last() =~= us.take(i as int));
                        assert(us.take(i + 1).last() == us[i as int]);
                        assert(all_known(us.take(i + 1))) by {
                            assert forall|j: int| 0 <= j < i + 1 implies
                                (#[trigger] acronym_bits(us.take(i + 1)[j])) is Some by {
                                if j < i {
                                    assert(us.take(i + 1)[j] == us.take(i as int)[j]);
                                }
                            }
                        }
                    }
                    acc = acc | m.bits;
                },
                Err(e) => {
                    proof {
                        assert(us[i as int] == upper_of(items@[i as int]@));
                        assert(!all_known(us)) by {
                            assert(acronym_bits(us[i as int]) is None);
                        }
                    }
                    return Err(e);
                },
            }
            i += 1;
        }
        proof {
            assert(us.take(items@.len() as int) =~= us);
        }
        Ok(OsuMods { bits: acc })
    }

    /// Strict, case-insensitive decoding of one acronym.
    pub fn decode_one(s: &str) -> (r: Result<OsuMods, ModsError>)
        ensures
            acronym_bits(upper_of(s@)) is Some <==> r is Ok,
            r matches Ok(m) ==> Some(m.bits) == acronym_bits(upper_of(s@)),
            r matches Err(ModsError::UnknownAcronym { acronym }) ==> acronym@ == s@,
    {
        let up = to_upper(s);
        match OsuMods::decode_one_folded(up.as_str()) {
            Ok(m) => Ok(m),
            Err(_) => Err(ModsError::UnknownAcronym { acronym: String::from_str(s) }),
        }
    }
}

} // verus!
