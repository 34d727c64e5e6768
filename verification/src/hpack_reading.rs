//! How a peer reads a header block, and what it reads of what the encoder wrote.
//!
//! The reader follows the HPACK format for blocks without Huffman coding and without
//! table size updates. Of the static table it knows the entry that the encoder
//! refers to.
use crate::hpack_encoder;
use crate::hpack_encoder::HeaderField;
use vstd::prelude::*;
use vstd::utf8;

verus! {

/// A decoded item and the number of bytes it took up.
pub struct Taken<T> {
    pub item: T,
    pub used: nat,
}

/// The number that base-128 digits, least significant first, stand for.
pub open spec fn read_continuation(bytes: Seq<u8>) -> Option<Taken<nat>>
    decreases bytes.len(),
{
    if bytes.len() == 0 {
        None
    } else if bytes[0] < 128 {
        Some(Taken { item: bytes[0] as nat, used: 1 })
    } else {
        match read_continuation(bytes.skip(1)) {
            Some(rest) => Some(
                Taken { item: (bytes[0] - 128 + 128 * rest.item) as nat, used: rest.used + 1 },
            ),
            None => None,
        }
    }
}

/// An integer whose prefix holds the values up to `max` in the first byte.
pub open spec fn read_int(bytes: Seq<u8>, max: nat) -> Option<Taken<nat>> {
    if bytes.len() == 0 {
        None
    } else {
        let low = bytes[0] as nat % (max + 1);
        if low < max {
            Some(Taken { item: low, used: 1 })
        } else {
            match read_continuation(bytes.skip(1)) {
                Some(rest) => Some(Taken { item: max + rest.item, used: rest.used + 1 }),
                None => None,
            }
        }
    }
}

pub open spec fn read_str(bytes: Seq<u8>) -> Option<Taken<Seq<u8>>> {
    if bytes.len() == 0 || bytes[0] >= 128 {
        None
    } else {
        match read_int(bytes, 127) {
            Some(len) => if len.used + len.item <= bytes.len() {
                Some(
                    Taken {
                        item: bytes.subrange(len.used as int, (len.used + len.item) as int),
                        used: len.used + len.item,
                    },
                )
            } else {
                None
            },
            None => None,
        }
    }
}

/// The entry that an index stands for: the static table first, then the dynamic one.
pub open spec fn lookup(table: Seq<HeaderField>, index: nat) -> Option<HeaderField> {
    if index == 8 {
        Some(hpack_encoder::status_200_field())
    } else if 62 <= index < 62 + table.len() {
        Some(table[index - 62])
    } else {
        None
    }
}

/// A literal header whose index prefix goes up to `max`; index 0 stands for a name
/// that is spelt out.
pub open spec fn read_literal(table: Seq<HeaderField>, bytes: Seq<u8>, max: nat) -> Option<
    Taken<HeaderField>,
> {
    match read_int(bytes, max) {
        None => None,
        Some(index) => {
            let rest = bytes.skip(index.used as int);
            let name = if index.item == 0 {
                read_str(rest)
            } else {
                match lookup(table, index.item) {
                    Some(f) => Some(Taken { item: f.name, used: 0 }),
                    None => None,
                }
            };
            match name {
                None => None,
                Some(name) => match read_str(rest.skip(name.used as int)) {
                    None => None,
                    Some(value) => Some(
                        Taken {
                            item: HeaderField { name: name.item, value: value.item },
                            used: index.used + name.used + value.used,
                        },
                    ),
                },
            }
        },
    }
}

/// The header at the start of `bytes`, and the dynamic table after it.
#[verifier::opaque]
pub open spec fn read_field(table: Seq<HeaderField>, bytes: Seq<u8>) -> Option<
    (Taken<HeaderField>, Seq<HeaderField>),
> {
    if bytes.len() == 0 {
        None
    } else if bytes[0] >= 128 {
        match read_int(bytes, 127) {
            Some(index) => match lookup(table, index.item) {
                Some(f) => Some((Taken { item: f, used: index.used }, table)),
                None => None,
            },
            None => None,
        }
    } else if bytes[0] >= 64 {
        match read_literal(table, bytes, 63) {
            Some(f) => Some((f, seq![f.item] + table)),
            None => None,
        }
    } else if bytes[0] < 32 {
        match read_literal(table, bytes, 15) {
            Some(f) => Some((f, table)),
            None => None,
        }
    } else {
        None
    }
}

/// All headers of a block, in order, and the dynamic table after it.
#[verifier::opaque]
pub open spec fn read_block(table: Seq<HeaderField>, bytes: Seq<u8>) -> Option<
    (Seq<HeaderField>, Seq<HeaderField>),
>
    decreases bytes.len(),
{
    if bytes.len() == 0 {
        Some((Seq::empty(), table))
    } else {
        match read_field(table, bytes) {
            Some((f, t)) => if 0 < f.used <= bytes.len() {
                match read_block(t, bytes.skip(f.used as int)) {
                    Some((fs, t2)) => Some((seq![f.item] + fs, t2)),
                    None => None,
                }
            } else {
                None
            },
            None => None,
        }
    }
}

proof fn lemma_continuation_read(v: nat, rest: Seq<u8>)
    ensures
        hpack_encoder::continuation_bytes(v).len() > 0,
        read_continuation(hpack_encoder::continuation_bytes(v) + rest) == Some(
            Taken { item: v, used: hpack_encoder::continuation_bytes(v).len() },
        ),
    decreases v,
{
    let all = hpack_encoder::continuation_bytes(v) + rest;
    if v >= 128 {
        lemma_continuation_read(v / 128, rest);
        assert(all.skip(1) =~= hpack_encoder::continuation_bytes(v / 128) + rest);
        assert(128 + v % 128 < 256);
        assert(all[0] == 128 + v % 128);
    } else {
        assert(all[0] == v);
    }
}

/// A prefix of one to eight bits, and a first byte that leaves these bits free.
pub open spec fn prefix_free(bits: usize, first_byte: u8) -> bool {
    1 <= bits <= 8 && first_byte as nat % (hpack_encoder::prefix_max(bits) as nat + 1) == 0
}

/// The largest values that the prefixes hold.
pub proof fn lemma_prefix_values()
    ensures
        hpack_encoder::prefix_max(1) == 1,
        hpack_encoder::prefix_max(2) == 3,
        hpack_encoder::prefix_max(3) == 7,
        hpack_encoder::prefix_max(4) == 15,
        hpack_encoder::prefix_max(5) == 31,
        hpack_encoder::prefix_max(6) == 63,
        hpack_encoder::prefix_max(7) == 127,
        hpack_encoder::prefix_max(8) == 255,
{
    assert(1usize << 1usize == 2 && 1usize << 2usize == 4 && 1usize << 3usize == 8 && 1usize
        << 4usize == 16 && 1usize << 5usize == 32 && 1usize << 6usize == 64 && 1usize << 7usize
        == 128 && 1usize << 8usize == 256) by (bit_vector);
}

/// The prefixes that the encoder uses are free.
pub proof fn lemma_prefixes_free()
    ensures
        prefix_free(7, 0x80),
        prefix_free(7, 0x00),
        prefix_free(6, 0x40),
        prefix_free(4, 0x00),
{
    lemma_prefix_values();
    assert(0x80nat % 128 == 0 && 0nat % 128 == 0 && 0x40nat % 64 == 0 && 0nat % 16 == 0);
}

/// Where the bits of the prefix are free, what goes there is added.
proof fn lemma_first_byte(value: usize, bits: usize, first_byte: u8)
    requires
        prefix_free(bits, first_byte),
        value <= hpack_encoder::prefix_max(bits),
    ensures
        first_byte | value as u8 == first_byte + value,
        (first_byte + value) as nat % (hpack_encoder::prefix_max(bits) as nat + 1) == value,
{
    lemma_prefix_values();
    let f = first_byte;
    let low = value as u8;
    assert(low == value);
    if bits == 1 {
        assert(f as nat % 2 == f % 2);
        assert(f | low == f + low) by (bit_vector)
            requires
                f % 2 == 0,
                low < 2,
        ;
        assert((f + low) % 2 == low);
    } else if bits == 2 {
        assert(f as nat % 4 == f % 4);
        assert(f | low == f + low) by (bit_vector)
            requires
                f % 4 == 0,
                low < 4,
        ;
        assert((f + low) % 4 == low);
    } else if bits == 3 {
        assert(f as nat % 8 == f % 8);
        assert(f | low == f + low) by (bit_vector)
            requires
                f % 8 == 0,
                low < 8,
        ;
        assert((f + low) % 8 == low);
    } else if bits == 4 {
        assert(f as nat % 16 == f % 16);
        assert(f | low == f + low) by (bit_vector)
            requires
                f % 16 == 0,
                low < 16,
        ;
        assert((f + low) % 16 == low);
    } else if bits == 5 {
        assert(f as nat % 32 == f % 32);
        assert(f | low == f + low) by (bit_vector)
            requires
                f % 32 == 0,
                low < 32,
        ;
        assert((f + low) % 32 == low);
    } else if bits == 6 {
        assert(f as nat % 64 == f % 64);
        assert(f | low == f + low) by (bit_vector)
            requires
                f % 64 == 0,
                low < 64,
        ;
        assert((f + low) % 64 == low);
    } else if bits == 7 {
        assert(f as nat % 128 == f % 128);
        assert(f | low == f + low) by (bit_vector)
            requires
                f % 128 == 0,
                low < 128,
        ;
        assert((f + low) % 128 == low);
    } else if bits == 8 {
        vstd::arithmetic::div_mod::lemma_small_mod(f as nat, 256);
        assert(f == 0);
        assert(0u8 | low == low) by (bit_vector);
    }
}

/// An integer is read back as it was written, whatever follows it.
pub proof fn law_int_read_back(value: usize, bits: usize, first_byte: u8, rest: Seq<u8>)
    requires
        prefix_free(bits, first_byte),
    ensures
        read_int(
            hpack_encoder::int_bytes(value, bits, first_byte) + rest,
            hpack_encoder::prefix_max(bits) as nat,
        ) == Some(
            Taken {
                item: value as nat,
                used: hpack_encoder::int_bytes(value, bits, first_byte).len(),
            },
        ),
        first_byte <= hpack_encoder::int_bytes(value, bits, first_byte)[0] <= first_byte
            + hpack_encoder::prefix_max(bits),
{
    lemma_prefix_values();
    let max = hpack_encoder::prefix_max(bits);
    let all = hpack_encoder::int_bytes(value, bits, first_byte) + rest;
    if value < max {
        lemma_first_byte(value, bits, first_byte);
        assert(all[0] == first_byte + value);
    } else {
        lemma_first_byte(max, bits, first_byte);
        assert(all[0] == first_byte + max);
        lemma_continuation_read((value - max) as nat, rest);
        assert(all.skip(1) =~= hpack_encoder::continuation_bytes((value - max) as nat) + rest);
    }
}

/// No run of digits that stands for `v` is shorter than the one that is written.
proof fn lemma_continuation_shortest(bytes: Seq<u8>)
    ensures
        read_continuation(bytes) matches Some(t) ==> hpack_encoder::continuation_bytes(
            t.item,
        ).len() <= t.used,
    decreases bytes.len(),
{
    if bytes.len() > 0 && bytes[0] >= 128 {
        lemma_continuation_shortest(bytes.skip(1));
        if let Some(rest) = read_continuation(bytes.skip(1)) {
            let v = (bytes[0] - 128 + 128 * rest.item) as nat;
            assert(v / 128 == rest.item);
        }
    }
}

/// Whatever is read as an integer takes up at least as many bytes as that integer does
/// when it is written.
pub proof fn law_int_shortest(bytes: Seq<u8>, bits: usize, first_byte: u8)
    requires
        1 <= bits <= 8,
    ensures
        read_int(bytes, hpack_encoder::prefix_max(bits) as nat) matches Some(t) ==> (t.item
            <= usize::MAX ==> hpack_encoder::int_bytes(t.item as usize, bits, first_byte).len()
            <= t.used),
{
    if bytes.len() > 0 {
        lemma_continuation_shortest(bytes.skip(1));
    }
}

/// How many digits there are, and that the leading one is not 0.
proof fn lemma_continuation_form(v: nat)
    ensures
        hpack_encoder::continuation_bytes(v).len() >= 1,
        (hpack_encoder::continuation_bytes(v).len() == 1) == (v < 128),
        v > 0 ==> hpack_encoder::continuation_bytes(v).last() != 0,
        hpack_encoder::continuation_bytes(v).last() < 128,
        forall|i: int|
            0 <= i < hpack_encoder::continuation_bytes(v).len() - 1
                ==> #[trigger] hpack_encoder::continuation_bytes(v)[i] >= 128,
    decreases v,
{
    if v >= 128 {
        lemma_continuation_form(v / 128);
        let rest = hpack_encoder::continuation_bytes(v / 128);
        let all = hpack_encoder::continuation_bytes(v);
        assert(all.last() == rest.last());
        assert(all[0] == 128 + v % 128);
        assert forall|i: int| 0 <= i < all.len() - 1 implies #[trigger] all[i] >= 128 by {
            if i > 0 {
                assert(all[i] == rest[i - 1]);
            }
        }
    }
}

/// The numbers that `k` digits suffice for lie below this.
spec fn beyond(k: nat) -> nat
    decreases k,
{
    if k == 0 {
        1
    } else {
        128 * beyond((k - 1) as nat)
    }
}

proof fn lemma_continuation_len(v: nat, k: nat)
    requires
        1 <= k,
        v < beyond(k),
    ensures
        hpack_encoder::continuation_bytes(v).len() <= k,
    decreases k,
{
    if v >= 128 {
        reveal_with_fuel(beyond, 3);
        assert(k >= 2);
        assert(v / 128 < beyond((k - 1) as nat));
        lemma_continuation_len(v / 128, (k - 1) as nat);
    }
}

proof fn lemma_continuation_grows(v: nat, w: nat)
    requires
        v <= w,
    ensures
        hpack_encoder::continuation_bytes(v).len() <= hpack_encoder::continuation_bytes(w).len(),
    decreases v,
{
    lemma_continuation_form(w);
    if v >= 128 {
        lemma_continuation_grows(v / 128, w / 128);
    }
}

/// The form of an integer: one byte where it is below what the prefix holds at most, two
/// where it is less than 128 above that, and never more than eleven; behind the first byte
/// all but the last have the high bit set, and of three or more the last is not 0.
pub proof fn law_int_form(value: usize, bits: usize, first_byte: u8)
    requires
        1 <= bits <= 8,
    ensures
        ({
            let out = hpack_encoder::int_bytes(value, bits, first_byte);
            let max = hpack_encoder::prefix_max(bits);
            &&& 1 <= out.len() <= 11
            &&& (out.len() == 1) == (value < max)
            &&& (out.len() == 2) == (max <= value < max + 128)
            &&& out.len() >= 3 ==> out.last() != 0
            &&& out[0] == first_byte | (if value < max {
                value
            } else {
                max
            }) as u8
            &&& out.len() >= 2 ==> out.last() < 128
            &&& forall|i: int| 1 <= i < out.len() - 1 ==> #[trigger] out[i] >= 128
        }),
{
    lemma_prefix_values();
    let max = hpack_encoder::prefix_max(bits);
    if value >= max {
        let v = (value - max) as nat;
        let rest = hpack_encoder::continuation_bytes(v);
        let out = hpack_encoder::int_bytes(value, bits, first_byte);
        lemma_continuation_form(v);
        assert(beyond(10) > 0xffff_ffff_ffff_ffff) by {
            reveal_with_fuel(beyond, 11);
        }
        lemma_continuation_len(v, 10);
        assert(out.last() == rest.last());
        assert forall|i: int| 1 <= i < out.len() - 1 implies #[trigger] out[i] >= 128 by {
            assert(out[i] == rest[i - 1]);
        }
    }
}

/// A larger integer takes up no fewer bytes.
pub proof fn law_int_grows(a: usize, b: usize, bits: usize, first_byte: u8)
    requires
        1 <= bits <= 8,
        a <= b,
    ensures
        hpack_encoder::int_bytes(a, bits, first_byte).len() <= hpack_encoder::int_bytes(
            b,
            bits,
            first_byte,
        ).len(),
{
    let max = hpack_encoder::prefix_max(bits);
    if a >= max {
        lemma_continuation_grows((a - max) as nat, (b - max) as nat);
    } else {
        law_int_form(a, bits, first_byte);
        law_int_form(b, bits, first_byte);
    }
}

/// A string is read back as it was written, whatever follows it.
pub proof fn law_str_read_back(octets: Seq<u8>, rest: Seq<u8>)
    requires
        octets.len() <= usize::MAX,
    ensures
        read_str(hpack_encoder::str_bytes(octets) + rest) == Some(
            Taken { item: octets, used: hpack_encoder::str_bytes(octets).len() },
        ),
{
    lemma_prefix_values();
    lemma_prefixes_free();
    let head = hpack_encoder::int_bytes(octets.len() as usize, 7, 0x00);
    law_int_read_back(octets.len() as usize, 7, 0x00, octets + rest);
    let all = hpack_encoder::str_bytes(octets) + rest;
    assert(all =~= head + (octets + rest));
    assert(all.subrange(head.len() as int, (head.len() + octets.len()) as int) =~= octets);
}

/// A header given by its index is read as the table entry.
pub proof fn law_index_read(table: Seq<HeaderField>, index: usize, rest: Seq<u8>)
    requires
        lookup(table, index as nat) is Some,
    ensures
        read_field(table, hpack_encoder::index_bytes(index) + rest) == Some(
            (
                Taken {
                    item: lookup(table, index as nat)->0,
                    used: hpack_encoder::index_bytes(index).len(),
                },
                table,
            ),
        ),
{
    reveal(read_field);
    lemma_prefix_values();
    lemma_prefixes_free();
    law_int_read_back(index, 7, 0x80, rest);
}

/// A literal header is read back as it was written and leaves the table alone.
pub proof fn law_literal_read(table: Seq<HeaderField>, field: HeaderField, rest: Seq<u8>)
    requires
        field.name.len() <= usize::MAX,
        field.value.len() <= usize::MAX,
    ensures
        read_field(table, hpack_encoder::literal_bytes(field) + rest) == Some(
            (Taken { item: field, used: hpack_encoder::literal_bytes(field).len() }, table),
        ),
{
    reveal(read_field);
    let name = hpack_encoder::str_bytes(field.name);
    let value = hpack_encoder::str_bytes(field.value);
    let all = hpack_encoder::literal_bytes(field) + rest;
    assert(all[0] == 0);
    assert(all.skip(1) =~= name + (value + rest));
    law_str_read_back(field.name, value + rest);
    assert(all.skip(1).skip(name.len() as int) =~= value + rest);
    law_str_read_back(field.value, rest);
}

/// A literal header that is to be stored is read back as it was written and becomes
/// the newest entry of the table.
pub proof fn law_indexed_literal_read(table: Seq<HeaderField>, field: HeaderField, rest: Seq<u8>)
    requires
        field.name.len() <= usize::MAX,
        field.value.len() <= usize::MAX,
    ensures
        read_field(table, hpack_encoder::indexed_literal_bytes(field) + rest) == Some(
            (
                Taken { item: field, used: hpack_encoder::indexed_literal_bytes(field).len() },
                seq![field] + table,
            ),
        ),
{
    reveal(read_field);
    lemma_prefix_values();
    lemma_prefixes_free();
    let head = hpack_encoder::int_bytes(0, 6, 0x40);
    let name = hpack_encoder::str_bytes(field.name);
    let value = hpack_encoder::str_bytes(field.value);
    let all = hpack_encoder::indexed_literal_bytes(field) + rest;
    law_int_read_back(0, 6, 0x40, name + (value + rest));
    assert(all =~= head + (name + (value + rest)));
    assert(all.skip(head.len() as int) =~= name + (value + rest));
    law_str_read_back(field.name, value + rest);
    assert(all.skip(head.len() as int).skip(name.len() as int) =~= value + rest);
    law_str_read_back(field.value, rest);
}

/// A literal header with an indexed name is read with the name of the table entry.
pub proof fn law_indexed_name_read(
    table: Seq<HeaderField>,
    index: usize,
    value: Seq<u8>,
    rest: Seq<u8>,
)
    requires
        lookup(table, index as nat) is Some,
        value.len() <= usize::MAX,
    ensures
        read_field(table, hpack_encoder::indexed_name_bytes(index, value) + rest) == Some(
            (
                Taken {
                    item: HeaderField { name: lookup(table, index as nat)->0.name, value },
                    used: hpack_encoder::indexed_name_bytes(index, value).len(),
                },
                table,
            ),
        ),
{
    reveal(read_field);
    lemma_prefix_values();
    lemma_prefixes_free();
    let head = hpack_encoder::int_bytes(index, 4, 0x00);
    let text = hpack_encoder::str_bytes(value);
    let all = hpack_encoder::indexed_name_bytes(index, value) + rest;
    law_int_read_back(index, 4, 0x00, text + rest);
    assert(all =~= head + (text + rest));
    assert(all.skip(head.len() as int) =~= text + rest);
    assert(all.skip(head.len() as int).skip(0) =~= text + rest);
    law_str_read_back(value, rest);
}

/// A header that is stored on first use is read back as it was written, and the
/// peer's table is afterwards the one that the encoder goes by.
pub proof fn law_stored_field_read(table: Seq<HeaderField>, field: HeaderField, rest: Seq<u8>)
    requires
        62 + table.len() <= usize::MAX,
        field.name.len() <= usize::MAX,
        field.value.len() <= usize::MAX,
    ensures
        read_field(table, hpack_encoder::stored_field_bytes(table, field) + rest) == Some(
            (
                Taken { item: field, used: hpack_encoder::stored_field_bytes(table, field).len() },
                hpack_encoder::table_with(table, field),
            ),
        ),
{
    if table.contains(field) {
        let i = table.index_of(field);
        assert(0 <= i < table.len() && table[i] == field);
        law_index_read(table, hpack_encoder::dynamic_table_index(i), rest);
    } else {
        law_indexed_literal_read(table, field, rest);
    }
}

/// A `grpc-status` header is read back with its code and leaves the table alone.
pub proof fn law_grpc_status_read(table: Seq<HeaderField>, code: Seq<char>, rest: Seq<u8>)
    requires
        62 + table.len() <= usize::MAX,
        utf8::encode_utf8(code).len() <= usize::MAX,
    ensures
        read_field(table, hpack_encoder::grpc_status_bytes(table, code) + rest) == Some(
            (
                Taken {
                    item: hpack_encoder::header_field("grpc-status"@, code),
                    used: hpack_encoder::grpc_status_bytes(table, code).len(),
                },
                table,
            ),
        ),
{
    let zero = hpack_encoder::grpc_status_zero_field();
    if table.contains(zero) {
        let i = table.index_of(zero);
        assert(0 <= i < table.len() && table[i] == zero);
        law_indexed_name_read(
            table,
            hpack_encoder::dynamic_table_index(i),
            utf8::encode_utf8(code),
            rest,
        );
    } else {
        reveal_strlit("grpc-status");
        utf8::is_ascii_chars_encode_utf8("grpc-status"@);
        law_literal_read(table, hpack_encoder::header_field("grpc-status"@, code), rest);
    }
}

} // verus!
