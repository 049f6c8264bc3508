use vstd::prelude::*;
use vstd::string::StringSliceAdditionalSpecFns;

verus! {

/// Number of bytes in a public key and in a content digest.
pub const KEY_LENGTH: usize = 32;

/// Public identity of a submitter: the key of the store.
#[derive(Clone, Copy, Debug, PartialEq, Eq)]
pub struct PublicKey {
    pub bytes: [u8; 32],
}

/// Digest of some content, supplied by the submitter and never inspected.
#[derive(Clone, Copy, Debug, PartialEq, Eq)]
pub struct Digest {
    pub bytes: [u8; 32],
}

impl View for PublicKey {
    type V = Seq<u8>;

    open spec fn view(&self) -> Seq<u8> {
        self.bytes@
    }
}

impl View for Digest {
    type V = Seq<u8>;

    open spec fn view(&self) -> Seq<u8> {
        self.bytes@
    }
}

/// `a` and `b` agree on every position before `i`, and `a[i] < b[i]`.
pub open spec fn less_at(a: Seq<u8>, b: Seq<u8>, i: int) -> bool {
    &&& 0 <= i < a.len()
    &&& i < b.len()
    &&& forall|k: int| 0 <= k < i ==> a[k] == b[k]
    &&& a[i] < b[i]
}

/// Lexicographic order on byte strings of equal length.
pub open spec fn key_less(a: Seq<u8>, b: Seq<u8>) -> bool {
    exists|i: int| less_at(a, b, i)
}

pub proof fn lemma_key_less_irreflexive(a: Seq<u8>)
    ensures
        !key_less(a, a),
{
}

pub proof fn lemma_key_less_asymmetric(a: Seq<u8>, b: Seq<u8>)
    ensures
        !(key_less(a, b) && key_less(b, a)),
{
    if key_less(a, b) && key_less(b, a) {
        let i = choose|i: int| less_at(a, b, i);
        let j = choose|j: int| less_at(b, a, j);
        if i < j {
            assert(b[i] == a[i]);
        } else if j < i {
            assert(a[j] == b[j]);
        }
    }
}

pub proof fn lemma_key_less_transitive(a: Seq<u8>, b: Seq<u8>, c: Seq<u8>)
    requires
        key_less(a, b),
        key_less(b, c),
    ensures
        key_less(a, c),
{
    let i = choose|i: int| less_at(a, b, i);
    let j = choose|j: int| less_at(b, c, j);
    if i <= j {
        assert(less_at(a, c, i));
    } else {
        assert(less_at(a, c, j));
    }
}

/// Compares two keys: negative when `a` comes first, zero when they are equal,
/// positive when `b` comes first.
pub fn compare_keys(a: &PublicKey, b: &PublicKey) -> (r: i8)
    ensures
        r < 0 <==> key_less(a@, b@),
        r == 0 <==> a@ == b@,
        r > 0 <==> key_less(b@, a@),
{
    broadcast use vstd::array::group_array_axioms;

    let mut i: usize = 0;
    while i < KEY_LENGTH
        invariant
            0 <= i <= KEY_LENGTH,
            a@.len() == KEY_LENGTH,
            b@.len() == KEY_LENGTH,
            forall|k: int| 0 <= k < i ==> a@[k] == b@[k],
        decreases KEY_LENGTH - i,
    {
        if a.bytes[i] < b.bytes[i] {
            assert(less_at(a@, b@, i as int));
            proof {
                lemma_key_less_asymmetric(a@, b@);
            }
            return -1;
        }
        if a.bytes[i] > b.bytes[i] {
            assert(less_at(b@, a@, i as int));
            proof {
                lemma_key_less_asymmetric(a@, b@);
            }
            return 1;
        }
        i = i + 1;
    }
    assert(a@ =~= b@);
    proof {
        lemma_key_less_irreflexive(a@);
    }
    0
}

/// Whether `c` is an ASCII hexadecimal digit, in either case.
pub open spec fn is_hex_digit(c: u8) -> bool {
    (48 <= c <= 57) || (97 <= c <= 102) || (65 <= c <= 70)
}

/// The value of a hexadecimal digit.
pub open spec fn hex_value(c: u8) -> int {
    if 48 <= c <= 57 {
        c - 48
    } else if 97 <= c <= 102 {
        c - 87
    } else {
        c - 55
    }
}

/// `text` is the hexadecimal form of the 32 bytes `bytes`, two digits a byte,
/// high half first.
pub open spec fn hex_of_key(text: Seq<u8>, bytes: Seq<u8>) -> bool {
    &&& text.len() == 2 * KEY_LENGTH
    &&& bytes.len() == KEY_LENGTH
    &&& forall|j: int| 0 <= j < text.len() ==> is_hex_digit(#[trigger] text[j])
    &&& forall|i: int|
        0 <= i < KEY_LENGTH ==> #[trigger] bytes[i] == 16 * hex_value(text[2 * i]) + hex_value(
            text[2 * i + 1],
        )
}

/// Whether `text` is the hexadecimal form of some 32 bytes.
pub open spec fn is_key_hex(text: Seq<u8>) -> bool {
    &&& text.len() == 2 * KEY_LENGTH
    &&& forall|j: int| 0 <= j < text.len() ==> is_hex_digit(#[trigger] text[j])
}

fn hex_digit(c: u8) -> (r: Option<u8>)
    ensures
        r.is_some() <==> is_hex_digit(c),
        r.is_some() ==> r.unwrap() == hex_value(c) && r.unwrap() < 16,
{
    if 48 <= c && c <= 57 {
        Some(c - 48)
    } else if 97 <= c && c <= 102 {
        Some(c - 87)
    } else if 65 <= c && c <= 70 {
        Some(c - 55)
    } else {
        None
    }
}

/// Decodes 64 hexadecimal digits (either case) into 32 bytes.
pub fn decode_key_hex(text: &str) -> (r: Option<[u8; 32]>)
    ensures
        r.is_some() <==> is_key_hex(text.spec_bytes()),
        r.is_some() ==> hex_of_key(text.spec_bytes(), r.unwrap()@),
{
    broadcast use vstd::array::group_array_axioms;

    let b = text.as_bytes();
    if b.len() != 2 * KEY_LENGTH {
        return None;
    }
    let mut out: [u8; 32] = [0u8; 32];
    let mut i: usize = 0;
    while i < KEY_LENGTH
        invariant
            0 <= i <= KEY_LENGTH,
            b@ == text.spec_bytes(),
            b@.len() == 2 * KEY_LENGTH,
            out@.len() == KEY_LENGTH,
            forall|j: int| 0 <= j < 2 * i ==> is_hex_digit(#[trigger] b@[j]),
            forall|k: int|
                0 <= k < i ==> #[trigger] out@[k] == 16 * hex_value(b@[2 * k]) + hex_value(
                    b@[2 * k + 1],
                ),
        decreases KEY_LENGTH - i,
    {
        let hi = hex_digit(b[2 * i]);
        let lo = hex_digit(b[2 * i + 1]);
        match (hi, lo) {
            (Some(h), Some(l)) => {
                out[i] = h * 16 + l;
            },
            _ => {
                assert(!is_hex_digit(b@[2 * i as int]) || !is_hex_digit(b@[2 * i as int + 1]));
                return None;
            },
        }
        i = i + 1;
    }
    Some(out)
}

impl PublicKey {
    /// Reads a key from its 64-digit hexadecimal form.
    pub fn from_hex(text: &str) -> (r: Option<PublicKey>)
        ensures
            r.is_some() <==> is_key_hex(text.spec_bytes()),
            r.is_some() ==> hex_of_key(text.spec_bytes(), r.unwrap()@),
    {
        match decode_key_hex(text) {
            Some(bytes) => Some(PublicKey { bytes }),
            None => None,
        }
    }
}

impl Digest {
    /// Reads a digest from its 64-digit hexadecimal form.
    pub fn from_hex(text: &str) -> (r: Option<Digest>)
        ensures
            r.is_some() <==> is_key_hex(text.spec_bytes()),
            r.is_some() ==> hex_of_key(text.spec_bytes(), r.unwrap()@),
    {
        match decode_key_hex(text) {
            Some(bytes) => Some(Digest { bytes }),
            None => None,
        }
    }
}

} // verus!
