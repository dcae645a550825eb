//! The CRC-32/IEEE checksum that guards every chunk.

use vstd::prelude::*;

verus! {

/// The generator polynomial of CRC-32/IEEE, bits reflected.
pub const IEEE: u32 = 0xedb8_8320;

/// One turn of the shift register: the low bit leaves, and where it was set
/// the polynomial is folded in.
pub open spec fn shift_step(value: u32) -> u32 {
    if value & 1 == 1 {
        (value >> 1) ^ IEEE
    } else {
        value >> 1
    }
}

/// Eight turns of the shift register, one for each bit of a byte.
pub open spec fn eight_steps(value: u32) -> u32 {
    shift_step(
        shift_step(
            shift_step(shift_step(shift_step(shift_step(shift_step(shift_step(value)))))),
        ),
    )
}

/// The lookup table's entry for `index`: eight turns of the register that
/// starts out holding `index`.
pub open spec fn table_entry(index: u8) -> u32 {
    eight_steps(index as u32)
}

/// The register after one more byte of input.
pub open spec fn feed(value: u32, byte: u8) -> u32 {
    table_entry((value as u8) ^ byte) ^ (value >> 8)
}

/// The register after all of `bytes`, starting from all ones.
pub open spec fn register(bytes: Seq<u8>) -> u32
    decreases bytes.len(),
{
    if bytes.len() == 0 {
        0xffff_ffff
    } else {
        feed(register(bytes.drop_last()), bytes.last())
    }
}

/// The CRC-32/IEEE checksum of `bytes`: the final register, inverted.
pub open spec fn crc32_ieee(bytes: Seq<u8>) -> u32 {
    !register(bytes)
}

/// Calls `crc::crc32::checksum_ieee` of the crc crate, the checksum of
/// `bytes` under the polynomial `IEEE`. That function starts the register at
/// all ones, looks each byte up in a table whose entries are eight turns of
/// the register, and inverts what is left at the end: `crc32_ieee` says the
/// same, and nothing here proves that the two agree.
#[verifier::external_body]
pub(crate) fn checksum_ieee(bytes: &[u8]) -> (sum: u32)
    ensures
        sum == crc32_ieee(bytes@),
{
    crc::crc32::checksum_ieee(bytes)
}

/// Feeding a byte through the table is folding it into the low bits of the
/// register and turning the register eight times.
pub proof fn lemma_feed_is_eight_turns(value: u32, byte: u8)
    by (bit_vector)
    ensures
        feed(value, byte) == eight_steps(value ^ (byte as u32)),
{
}

/// One more byte at the end of the input is one more byte fed to the
/// register.
pub proof fn lemma_register_push(bytes: Seq<u8>, byte: u8)
    ensures
        register(bytes.push(byte)) == feed(register(bytes), byte),
{
    assert(bytes.push(byte).drop_last() =~= bytes);
}

/// The checksum of the letters `IEND`, as it stands at the end of every PNG
/// file.
pub proof fn lemma_checksum_of_iend()
    ensures
        crc32_ieee(seq![0x49u8, 0x45u8, 0x4eu8, 0x44u8]) == 0xae42_6082u32,
{
    let none = Seq::<u8>::empty();
    lemma_register_push(none, 0x49);
    lemma_register_push(none.push(0x49), 0x45);
    lemma_register_push(none.push(0x49).push(0x45), 0x4e);
    lemma_register_push(none.push(0x49).push(0x45).push(0x4e), 0x44);
    assert(feed(0xffff_ffff, 0x49) == 0x22fd_e946u32) by (bit_vector);
    assert(feed(0x22fd_e946, 0x45) == 0x992b_ac53u32) by (bit_vector);
    assert(feed(0x992b_ac53, 0x4e) == 0x639f_4775u32) by (bit_vector);
    assert(feed(0x639f_4775, 0x44) == 0x51bd_9f7du32) by (bit_vector);
    assert(!0x51bd_9f7du32 == 0xae42_6082u32) by (bit_vector);
    assert(none.push(0x49).push(0x45).push(0x4e).push(0x44) =~= seq![
        0x49u8,
        0x45u8,
        0x4eu8,
        0x44u8,
    ]);
}

/// Feeding one byte to two different registers leaves them different.
pub proof fn lemma_feed_separates_registers(a: u32, b: u32, byte: u8)
    by (bit_vector)
    requires
        a != b,
    ensures
        feed(a, byte) != feed(b, byte),
{
}

/// Feeding two different bytes to one register gives different registers.
pub proof fn lemma_feed_separates_bytes(value: u32, x: u8, y: u8)
    by (bit_vector)
    requires
        x != y,
    ensures
        feed(value, x) != feed(value, y),
{
}

/// Whether `a` and `b` are of one length and differ in the byte at `at` and
/// nowhere else.
pub open spec fn differ_only_at(a: Seq<u8>, b: Seq<u8>, at: int) -> bool {
    &&& a.len() == b.len()
    &&& 0 <= at < a.len()
    &&& a[at] != b[at]
    &&& forall|i: int| 0 <= i < a.len() && i != at ==> a[i] == b[i]
}

/// The checksum catches every change that is confined to one byte: two
/// inputs that differ in a single byte never have the same checksum.
pub proof fn lemma_one_byte_changes_checksum(a: Seq<u8>, b: Seq<u8>, at: int)
    requires
        differ_only_at(a, b, at),
    ensures
        crc32_ieee(a) != crc32_ieee(b),
{
    lemma_one_byte_changes_register(a, b, at);
    let (x, y) = (register(a), register(b));
    assert(x != y ==> !x != !y) by (bit_vector);
}

proof fn lemma_one_byte_changes_register(a: Seq<u8>, b: Seq<u8>, at: int)
    requires
        differ_only_at(a, b, at),
    ensures
        register(a) != register(b),
    decreases a.len(),
{
    if at == a.len() - 1 {
        assert(a.drop_last() =~= b.drop_last());
        lemma_feed_separates_bytes(register(a.drop_last()), a.last(), b.last());
    } else {
        lemma_one_byte_changes_register(a.drop_last(), b.drop_last(), at);
        lemma_feed_separates_registers(
            register(a.drop_last()),
            register(b.drop_last()),
            a.last(),
        );
    }
}

} // verus!
