//! The HPACK encoder for the handful of headers that a gRPC response carries.
//!
//! Two headers repeat on every successful response, `content-type` and
//! `grpc-status: 0`. Each is sent once as a literal that the peer stores in its
//! dynamic table, and from then on as an index into that table.
use crate::decimal;
use vstd::prelude::*;
use vstd::utf8;

verus! {

/// The largest value that `bits` bits hold.
pub open spec fn prefix_max(bits: usize) -> usize {
    ((1usize << bits) - 1) as usize
}

/// The base-128 digits of `v`, least significant first, each but the last with
/// its high bit set.
pub open spec fn continuation_bytes(v: nat) -> Seq<u8>
    decreases v,
{
    if v < 128 {
        seq![v as u8]
    } else {
        seq![(128 + v % 128) as u8] + continuation_bytes(v / 128)
    }
}

/// An integer in the HPACK representation with a prefix of `bits` bits; the bits
/// of `first_byte` above the prefix are kept.
pub open spec fn int_bytes(value: usize, bits: usize, first_byte: u8) -> Seq<u8> {
    if value < prefix_max(bits) {
        seq![first_byte | value as u8]
    } else {
        seq![first_byte | prefix_max(bits) as u8] + continuation_bytes(
            (value - prefix_max(bits)) as nat,
        )
    }
}

/// A string literal without Huffman coding: the length in octets, then the octets.
pub open spec fn str_bytes(octets: Seq<u8>) -> Seq<u8> {
    int_bytes(octets.len() as usize, 7, 0x00) + octets
}

proof fn lemma_small_prefix(bits: usize)
    requires
        bits <= 8,
    ensures
        0 <= (1usize << bits) - 1 <= 255,
{
    assert(1 <= (1usize << bits) && (1usize << bits) <= 256) by (bit_vector)
        requires
            bits <= 8,
    ;
}

/// Returns true if the int can be fully encoded in the first byte.
pub fn encode_int_one_byte(value: usize, prefix_bits: usize) -> (r: bool)
    requires
        prefix_bits <= 8,
    ensures
        r == (value < prefix_max(prefix_bits)),
{
    proof {
        lemma_small_prefix(prefix_bits);
    }
    value < (1usize << prefix_bits) - 1
}

/// Encode an integer into the given destination buffer.
pub fn encode_int(value: usize, prefix_bits: usize, first_byte: u8, dst: &mut Vec<u8>)
    requires
        prefix_bits <= 8,
    ensures
        final(dst)@ == old(dst)@ + int_bytes(value, prefix_bits, first_byte),
{
    proof {
        lemma_small_prefix(prefix_bits);
    }
    if encode_int_one_byte(value, prefix_bits) {
        dst.push(first_byte | value as u8);
        return ;
    }
    let low: usize = (1usize << prefix_bits) - 1;
    let mut rest: usize = value - low;
    dst.push(first_byte | low as u8);
    let ghost head = dst@;
    while rest >= 128
        invariant
            dst@ + continuation_bytes(rest as nat) == head + continuation_bytes(
                (value - low) as nat,
            ),
        decreases rest,
    {
        let ghost before = dst@;
        let digit: u8 = #[verifier::truncate] (rest as u8);
        assert(0b1000_0000u8 | digit == 128 + rest % 128) by (bit_vector)
            requires
                digit == rest as u8,
        ;
        assert(rest >> 7 == rest / 128) by (bit_vector);
        dst.push(0b1000_0000 | digit);
        proof {
            let d = (128 + rest as nat % 128) as u8;
            assert(before.push(d) + continuation_bytes(rest as nat / 128) =~= before + (seq![d]
                + continuation_bytes(rest as nat / 128)));
        }
        rest >>= 7;
    }
    let ghost before = dst@;
    dst.push(rest as u8);
    proof {
        assert(dst@ =~= before + continuation_bytes(rest as nat));
        assert(dst@ =~= old(dst)@ + int_bytes(value, prefix_bits, first_byte));
    }
}

fn encode_str(val: &str, dst: &mut Vec<u8>)
    ensures
        final(dst)@ == old(dst)@ + str_bytes(utf8::encode_utf8(val@)),
{
    let octets = val.as_bytes();
    encode_int(octets.len(), 7, 0x00, dst);
    dst.extend_from_slice(octets);
    proof {
        assert(octets@ == utf8::encode_utf8(val@));
        assert(dst@ =~= old(dst)@ + str_bytes(utf8::encode_utf8(val@)));
    }
}

/// A header as HPACK carries it: a name and a value, both octet strings.
pub struct HeaderField {
    pub name: Seq<u8>,
    pub value: Seq<u8>,
}

pub open spec fn header_field(name: Seq<char>, value: Seq<char>) -> HeaderField {
    HeaderField { name: utf8::encode_utf8(name), value: utf8::encode_utf8(value) }
}

pub open spec fn status_200_field() -> HeaderField {
    header_field(":status"@, "200"@)
}

pub open spec fn content_type_field() -> HeaderField {
    header_field("content-type"@, "application/grpc"@)
}

pub open spec fn grpc_status_zero_field() -> HeaderField {
    header_field("grpc-status"@, "0"@)
}

pub open spec fn accept_encoding_field() -> HeaderField {
    header_field("grpc-accept-encoding"@, "gzip,deflate,zstd"@)
}

/// A literal header that the peer does not store.
pub open spec fn literal_bytes(field: HeaderField) -> Seq<u8> {
    seq![0u8] + str_bytes(field.name) + str_bytes(field.value)
}

/// A literal header that the peer stores in its dynamic table.
pub open spec fn indexed_literal_bytes(field: HeaderField) -> Seq<u8> {
    int_bytes(0, 6, 0x40) + str_bytes(field.name) + str_bytes(field.value)
}

/// A literal header whose name is that of the table entry `index`.
pub open spec fn indexed_name_bytes(index: usize, value: Seq<u8>) -> Seq<u8> {
    int_bytes(index, 4, 0x00) + str_bytes(value)
}

/// A whole header given by its index.
pub open spec fn index_bytes(index: usize) -> Seq<u8> {
    int_bytes(index, 7, 0x80)
}

/// The index of the entry at `position` of the dynamic table: the static table
/// takes up the indices 1 to 61.
pub open spec fn dynamic_table_index(position: int) -> usize {
    (62 + position) as usize
}

/// What is sent for a header that is stored on first use: its index where the table
/// holds it, else a literal.
pub open spec fn stored_field_bytes(table: Seq<HeaderField>, field: HeaderField) -> Seq<u8> {
    if table.contains(field) {
        index_bytes(dynamic_table_index(table.index_of(field)))
    } else {
        indexed_literal_bytes(field)
    }
}

/// The table after such a header was sent; new entries come first.
pub open spec fn table_with(table: Seq<HeaderField>, field: HeaderField) -> Seq<HeaderField> {
    if table.contains(field) {
        table
    } else {
        seq![field] + table
    }
}

/// What is sent for `grpc-status: <code>` with a code other than 0: the name comes
/// from the entry `grpc-status: 0`, where the table holds it.
pub open spec fn grpc_status_bytes(table: Seq<HeaderField>, code: Seq<char>) -> Seq<u8> {
    if table.contains(grpc_status_zero_field()) {
        indexed_name_bytes(
            dynamic_table_index(table.index_of(grpc_status_zero_field())),
            utf8::encode_utf8(code),
        )
    } else {
        literal_bytes(header_field("grpc-status"@, code))
    }
}

/// The tables that an encoder can have filled: each of the two headers that are stored
/// stands in them at most once.
pub open spec fn is_reached(table: Seq<HeaderField>) -> bool {
    &&& table.len() <= 2
    &&& forall|i: int|
        0 <= i < table.len() ==> #[trigger] table[i] == content_type_field() || table[i]
            == grpc_status_zero_field()
    &&& table.no_duplicates()
}

#[derive(Debug)]
pub struct Encoder {
    dynamic_table_size: usize,
    rank_grpc_status_zero: Option<usize>,
    rank_content_type: Option<usize>,
}

impl View for Encoder {
    type V = Seq<HeaderField>;

    /// The dynamic table as the peer holds it, the newest entry first.
    closed spec fn view(&self) -> Seq<HeaderField> {
        Seq::new(
            self.dynamic_table_size as nat,
            |i: int|
                if self.rank_grpc_status_zero == Some((self.dynamic_table_size - i) as usize) {
                    grpc_status_zero_field()
                } else {
                    content_type_field()
                },
        )
    }
}

spec fn held(rank: Option<usize>) -> nat {
    if rank is Some {
        1
    } else {
        0
    }
}

impl Encoder {
    /// Each of the two headers is held at most once, under the rank that it got when
    /// it was stored.
    pub closed spec fn wf(&self) -> bool {
        &&& self.dynamic_table_size == held(self.rank_grpc_status_zero) + held(
            self.rank_content_type,
        )
        &&& self.rank_grpc_status_zero matches Some(r) ==> 1 <= r <= self.dynamic_table_size
        &&& self.rank_content_type matches Some(r) ==> 1 <= r <= self.dynamic_table_size
        &&& self.rank_grpc_status_zero is Some ==> self.rank_grpc_status_zero
            != self.rank_content_type
    }

    proof fn lemma_names_differ()
        ensures
            grpc_status_zero_field() != content_type_field(),
    {
        reveal_strlit("grpc-status");
        reveal_strlit("content-type");
        utf8::is_ascii_chars_encode_utf8("grpc-status"@);
        utf8::is_ascii_chars_encode_utf8("content-type"@);
        assert(utf8::encode_utf8("grpc-status"@).len() == 11);
        assert(utf8::encode_utf8("content-type"@).len() == 12);
    }

    /// The table of an encoder holds nothing but the two headers that are stored, each of
    /// them at most once.
    pub proof fn law_table(&self)
        requires
            self.wf(),
        ensures
            is_reached(self@),
    {
        Self::lemma_names_differ();
        self.lemma_table();
    }

    /// Where the two headers stand in the table.
    proof fn lemma_table(&self)
        requires
            self.wf(),
        ensures
            self@.len() == self.dynamic_table_size <= 2,
            self.rank_grpc_status_zero matches Some(r) ==> self@.contains(grpc_status_zero_field())
                && self@.index_of(grpc_status_zero_field()) == self.dynamic_table_size - r,
            self.rank_grpc_status_zero is None ==> !self@.contains(grpc_status_zero_field()),
            self.rank_content_type matches Some(r) ==> self@.contains(content_type_field())
                && self@.index_of(content_type_field()) == self.dynamic_table_size - r,
            self.rank_content_type is None ==> !self@.contains(content_type_field()),
    {
        Self::lemma_names_differ();
        if let Some(r) = self.rank_grpc_status_zero {
            assert(self@[self.dynamic_table_size - r] == grpc_status_zero_field());
        }
        if let Some(r) = self.rank_content_type {
            assert(self@[self.dynamic_table_size - r] == content_type_field());
        }
    }

    pub fn new() -> (r: Self)
        ensures
            r.wf(),
            r@ == Seq::<HeaderField>::empty(),
    {
        Self { dynamic_table_size: 0, rank_grpc_status_zero: None, rank_content_type: None }
    }

    pub fn encode_status_200(&mut self, dst: &mut Vec<u8>)
        ensures
            *final(self) == *old(self),
            final(dst)@ == old(dst)@ + index_bytes(8),
    {
        self.encode_static_index(8, dst);
    }

    pub fn encode_grpc_status_zero(&mut self, dst: &mut Vec<u8>)
        requires
            old(self).wf(),
        ensures
            final(self).wf(),
            final(self)@ == table_with(old(self)@, grpc_status_zero_field()),
            final(dst)@ == old(dst)@ + stored_field_bytes(old(self)@, grpc_status_zero_field()),
    {
        proof {
            self.lemma_table();
        }
        match self.rank_grpc_status_zero {
            Some(rank) => self.encode_dynamic_index(rank, dst),
            None => {
                self.encode_and_index_header("grpc-status", "0", dst);
                self.rank_grpc_status_zero = Some(self.dynamic_table_size);
                assert(self@ =~= seq![grpc_status_zero_field()] + old(self)@);
            },
        }
    }

    pub fn encode_content_type(&mut self, dst: &mut Vec<u8>)
        requires
            old(self).wf(),
        ensures
            final(self).wf(),
            final(self)@ == table_with(old(self)@, content_type_field()),
            final(dst)@ == old(dst)@ + stored_field_bytes(old(self)@, content_type_field()),
    {
        proof {
            self.lemma_table();
        }
        match self.rank_content_type {
            Some(rank) => self.encode_dynamic_index(rank, dst),
            None => {
                self.encode_and_index_header("content-type", "application/grpc", dst);
                self.rank_content_type = Some(self.dynamic_table_size);
                assert(self@ =~= seq![content_type_field()] + old(self)@);
            },
        }
    }

    pub fn encode_grpc_status_nonzero(&mut self, code: usize, dst: &mut Vec<u8>)
        requires
            old(self).wf(),
        ensures
            *final(self) == *old(self),
            final(dst)@ == old(dst)@ + grpc_status_bytes(old(self)@, decimal::decimal(code as nat)),
    {
        proof {
            self.lemma_table();
        }
        let code_str = decimal::decimal_string(code);
        match self.rank_grpc_status_zero {
            Some(rank) => {
                let index = self.dynamic_index(rank);
                encode_with_indexed_name(index, code_str.as_str(), dst);
            },
            None => encode_header("grpc-status", code_str.as_str(), dst),
        }
    }

    pub fn encode_grpc_message(&mut self, msg: &str, dst: &mut Vec<u8>)
        ensures
            *final(self) == *old(self),
            final(dst)@ == old(dst)@ + literal_bytes(header_field("grpc-message"@, msg@)),
    {
        encode_header("grpc-message", msg, dst)
    }

    pub fn encode_grpc_accept_encoding(&mut self, dst: &mut Vec<u8>)
        ensures
            *final(self) == *old(self),
            final(dst)@ == old(dst)@ + literal_bytes(accept_encoding_field()),
    {
        encode_header("grpc-accept-encoding", "gzip,deflate,zstd", dst)
    }

    fn encode_and_index_header(&mut self, name: &str, value: &str, dst: &mut Vec<u8>)
        requires
            old(self).dynamic_table_size < usize::MAX,
        ensures
            final(self).dynamic_table_size == old(self).dynamic_table_size + 1,
            final(self).rank_grpc_status_zero == old(self).rank_grpc_status_zero,
            final(self).rank_content_type == old(self).rank_content_type,
            final(dst)@ == old(dst)@ + indexed_literal_bytes(header_field(name@, value@)),
    {
        encode_int(0, 6, 0x40, dst);
        encode_str(name, dst);
        encode_str(value, dst);
        assert(dst@ =~= old(dst)@ + indexed_literal_bytes(header_field(name@, value@)));
        self.dynamic_table_size += 1;
    }

    fn encode_static_index(&self, index: usize, dst: &mut Vec<u8>)
        ensures
            final(dst)@ == old(dst)@ + index_bytes(index),
    {
        encode_int(index, 7, 0x80, dst);
    }

    fn encode_dynamic_index(&self, rank: usize, dst: &mut Vec<u8>)
        requires
            rank <= self.dynamic_table_size <= usize::MAX - 62,
        ensures
            final(dst)@ == old(dst)@ + index_bytes(
                dynamic_table_index(self.dynamic_table_size - rank),
            ),
    {
        let index = self.dynamic_index(rank);
        encode_int(index, 7, 0x80, dst);
    }

    fn dynamic_index(&self, rank: usize) -> (r: usize)
        requires
            rank <= self.dynamic_table_size <= usize::MAX - 62,
        ensures
            r == dynamic_table_index(self.dynamic_table_size - rank),
            r == self.dynamic_table_size - rank + 62,
    {
        self.dynamic_table_size - rank + 62
    }
}

fn encode_header(name: &str, value: &str, dst: &mut Vec<u8>)
    ensures
        final(dst)@ == old(dst)@ + literal_bytes(header_field(name@, value@)),
{
    dst.push(0);
    encode_str(name, dst);
    encode_str(value, dst);
    assert(dst@ =~= old(dst)@ + literal_bytes(header_field(name@, value@)));
}

fn encode_with_indexed_name(name: usize, value: &str, dst: &mut Vec<u8>)
    ensures
        final(dst)@ == old(dst)@ + indexed_name_bytes(name, utf8::encode_utf8(value@)),
{
    encode_int(name, 4, 0x00, dst);
    encode_str(value, dst);
    assert(dst@ =~= old(dst)@ + indexed_name_bytes(name, utf8::encode_utf8(value@)));
}

} // verus!
