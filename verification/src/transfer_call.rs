//! The SCALE-encoded balance transfer call that a winner selection prepares,
//! written as a `0x`-prefixed hex string.
use vstd::prelude::*;
use parity_scale_codec::{Compact, Encode};
use sp_runtime::MultiAddress;

verus! {

/// The runtime index of the balances pallet that the call is addressed to.
pub const TRANSFER_PALLET_INDEX: u8 = 6u8;

/// The index of the transfer call within that pallet.
pub const TRANSFER_CALL_INDEX: u8 = 0u8;

/// The amount that the prepared transfer names.
pub const TRANSFER_AMOUNT: u128 = 2_000_000_000_000u128;

/// The `n` little-endian bytes of `v`.
pub open spec fn le_bytes(v: nat, n: nat) -> Seq<u8>
    decreases n,
{
    if n == 0 {
        Seq::empty()
    } else {
        seq![(v % 256) as u8] + le_bytes(v / 256, (n - 1) as nat)
    }
}

/// How many bytes hold `v` with no leading zero byte (at least one).
pub open spec fn byte_count(v: nat) -> nat
    decreases v,
{
    if v < 256 {
        1
    } else {
        1 + byte_count(v / 256)
    }
}

/// The SCALE compact encoding of a `u128`.
pub open spec fn compact_u128(v: u128) -> Seq<u8> {
    if v < 64 {
        seq![(v * 4) as u8]
    } else if v < 16384 {
        le_bytes((v * 4 + 1) as nat, 2)
    } else if v < 1073741824 {
        le_bytes((v * 4 + 2) as nat, 4)
    } else {
        let n = byte_count(v as nat);
        seq![(3 + (n - 4) * 4) as u8] + le_bytes(v as nat, n)
    }
}

/// The SCALE encoding of `(pallet, call, MultiAddress::Id(dest), Compact(amount))`:
/// the two index bytes, the variant byte of `Id`, the account in eight
/// little-endian bytes, then the compact amount.
pub open spec fn call_encoding(pallet: u8, call: u8, dest: u64, amount: u128) -> Seq<u8> {
    seq![pallet, call, 0u8] + le_bytes(dest as nat, 8) + compact_u128(amount)
}

/// A lowercase hex digit.
pub open spec fn hex_digit(d: nat) -> char {
    if d < 10 {
        (48 + d) as char
    } else {
        (87 + d) as char
    }
}

/// Lowercase hex, two digits for each byte, high half first.
pub open spec fn hex_string(b: Seq<u8>) -> Seq<char>
    decreases b.len(),
{
    if b.len() == 0 {
        Seq::empty()
    } else {
        seq![hex_digit((b[0] / 16) as nat), hex_digit((b[0] % 16) as nat)] + hex_string(
            b.drop_first(),
        )
    }
}

/// The hex text of the transfer call to `dest`, as the winner selection logs it.
pub open spec fn transfer_call_hex(dest: u64) -> Seq<char> {
    seq!['0', 'x'] + hex_string(
        call_encoding(TRANSFER_PALLET_INDEX, TRANSFER_CALL_INDEX, dest, TRANSFER_AMOUNT),
    )
}

/// `256^n`: one more than the largest value that `n` bytes hold.
pub open spec fn byte_range(n: nat) -> nat
    decreases n,
{
    if n == 0 {
        1
    } else {
        256 * byte_range((n - 1) as nat)
    }
}

/// The value of little-endian bytes.
pub open spec fn le_value(b: Seq<u8>) -> nat
    decreases b.len(),
{
    if b.len() == 0 {
        0
    } else {
        b[0] as nat + 256 * le_value(b.drop_first())
    }
}

proof fn lemma_le_bytes_len(v: nat, n: nat)
    ensures
        le_bytes(v, n).len() == n,
    decreases n,
{
    if n > 0 {
        lemma_le_bytes_len(v / 256, (n - 1) as nat);
    }
}

/// Reading back the `n` little-endian bytes of a value that fits in them gives
/// the value.
pub proof fn lemma_le_bytes_value(v: nat, n: nat)
    requires
        v < byte_range(n),
    ensures
        le_value(le_bytes(v, n)) == v,
    decreases n,
{
    if n > 0 {
        let b = le_bytes(v, n);
        assert(b.drop_first() =~= le_bytes(v / 256, (n - 1) as nat));
        assert(v / 256 < byte_range((n - 1) as nat));
        lemma_le_bytes_value(v / 256, (n - 1) as nat);
        assert(b[0] as nat == v % 256);
    }
}

proof fn lemma_hex_string_len(b: Seq<u8>)
    ensures
        hex_string(b).len() == 2 * b.len(),
    decreases b.len(),
{
    if b.len() > 0 {
        lemma_hex_string_len(b.drop_first());
    }
}

proof fn lemma_hex_digit_injective(d1: nat, d2: nat)
    requires
        d1 < 16,
        d2 < 16,
        hex_digit(d1) == hex_digit(d2),
    ensures
        d1 == d2,
{
    let c1 = hex_digit(d1) as int;
    let c2 = hex_digit(d2) as int;
    assert(c1 == if d1 < 10 { 48 + d1 } else { 87 + d1 });
    assert(c2 == if d2 < 10 { 48 + d2 } else { 87 + d2 });
}

/// Hex text determines the bytes it was written from.
pub proof fn lemma_hex_string_injective(a: Seq<u8>, b: Seq<u8>)
    requires
        hex_string(a) == hex_string(b),
    ensures
        a == b,
    decreases a.len(),
{
    lemma_hex_string_len(a);
    lemma_hex_string_len(b);
    if a.len() > 0 {
        let ha = hex_string(a);
        let hb = hex_string(b);
        assert(ha[0] == hb[0] && ha[1] == hb[1]);
        lemma_hex_digit_injective((a[0] / 16) as nat, (b[0] / 16) as nat);
        lemma_hex_digit_injective((a[0] % 16) as nat, (b[0] % 16) as nat);
        assert(a[0] == b[0]);
        assert(hex_string(a.drop_first()) =~= ha.subrange(2, ha.len() as int));
        assert(hex_string(b.drop_first()) =~= hb.subrange(2, hb.len() as int));
        lemma_hex_string_injective(a.drop_first(), b.drop_first());
        assert(a.len() == b.len());
        assert forall|i: int| 0 <= i < a.len() implies a[i] == b[i] by {
            if i > 0 {
                assert(a[i] == a.drop_first()[i - 1]);
                assert(b[i] == b.drop_first()[i - 1]);
            }
        }
        assert(a =~= b);
    } else {
        assert(a =~= b);
    }
}

/// The address of the transfer call is the picker: the eight bytes after the
/// pallet index, the call index and the variant byte read back, little-endian,
/// as the picker's account.
pub proof fn law_transfer_call_address(dest: u64)
    ensures
        call_encoding(TRANSFER_PALLET_INDEX, TRANSFER_CALL_INDEX, dest, TRANSFER_AMOUNT).subrange(
            3,
            11,
        ) == le_bytes(dest as nat, 8),
        le_value(
            call_encoding(TRANSFER_PALLET_INDEX, TRANSFER_CALL_INDEX, dest, TRANSFER_AMOUNT).subrange(
                3,
                11,
            ),
        ) == dest,
{
    lemma_le_bytes_len(dest as nat, 8);
    let e = call_encoding(TRANSFER_PALLET_INDEX, TRANSFER_CALL_INDEX, dest, TRANSFER_AMOUNT);
    assert(e.subrange(3, 11) =~= le_bytes(dest as nat, 8));
    assert(byte_range(8) == 0x1_0000_0000_0000_0000nat) by {
        reveal_with_fuel(byte_range, 9);
    }
    lemma_le_bytes_value(dest as nat, 8);
}

/// Different pickers get different transfer calls: the text of the call
/// determines the account it pays.
pub proof fn law_transfer_call_hex_names_picker(d1: u64, d2: u64)
    ensures
        transfer_call_hex(d1) == transfer_call_hex(d2) ==> d1 == d2,
{
    if transfer_call_hex(d1) == transfer_call_hex(d2) {
        let e1 = call_encoding(TRANSFER_PALLET_INDEX, TRANSFER_CALL_INDEX, d1, TRANSFER_AMOUNT);
        let e2 = call_encoding(TRANSFER_PALLET_INDEX, TRANSFER_CALL_INDEX, d2, TRANSFER_AMOUNT);
        let t1 = transfer_call_hex(d1);
        let t2 = transfer_call_hex(d2);
        assert(hex_string(e1) =~= t1.subrange(2, t1.len() as int));
        assert(hex_string(e2) =~= t2.subrange(2, t2.len() as int));
        lemma_hex_string_injective(e1, e2);
        law_transfer_call_address(d1);
        law_transfer_call_address(d2);
    }
}

/// `Encode::encode` (parity-scale-codec) of the tuple
/// `(pallet, call, sp_runtime::MultiAddress::<u64, u32>::Id(dest), Compact(amount))`.
/// The claim is the SCALE layout that the codec's source shows: a tuple is its
/// fields in order, `u8` one byte, a derived enum its variant index then its
/// field, `u64` eight little-endian bytes, and `Compact<u128>` the four modes
/// of `compact_u128`.
#[verifier::external_body]
fn encode_call(pallet: u8, call: u8, dest: u64, amount: u128) -> (bytes: Vec<u8>)
    ensures
        bytes@ == call_encoding(pallet, call, dest, amount),
{
    (pallet, call, MultiAddress::<u64, u32>::Id(dest), Compact::from(amount)).encode()
}

/// `hex::encode`: two lowercase hex digits for each byte, high half first.
#[verifier::external_body]
fn hex_encode(bytes: &Vec<u8>) -> (s: String)
    ensures
        s@ == hex_string(bytes@),
{
    hex::encode(bytes)
}

/// The transfer call to `dest` that a winner selection prepares, SCALE-encoded
/// and written as `0x` followed by lowercase hex.
pub fn encode_transfer_call_hex(dest: u64) -> (s: String)
    ensures
        s@ == transfer_call_hex(dest),
        s@ == seq!['0', 'x'] + hex_string(
            call_encoding(TRANSFER_PALLET_INDEX, TRANSFER_CALL_INDEX, dest, TRANSFER_AMOUNT),
        ),
{
    let bytes = encode_call(TRANSFER_PALLET_INDEX, TRANSFER_CALL_INDEX, dest, TRANSFER_AMOUNT);
    let digits = hex_encode(&bytes);
    let prefix = String::from_str("0x");
    proof {
        reveal_strlit("0x");
    }
    let s = prefix.concat(digits.as_str());
    assert(s@ =~= transfer_call_hex(dest));
    s
}

} // verus!
