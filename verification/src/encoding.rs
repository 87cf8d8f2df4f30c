//! How a BTF buffer is written, field by field, and that the reader finds in it what
//! was written: the format's side of [`crate::btf`], stated over bytes.

use vstd::prelude::*;
use vstd::utf8::*;

use crate::btf;
use crate::btf::{BtfError, Layout};
use crate::common;
use crate::text;

verus! {

/// A member of a struct, as written: its name and where that lies among the strings,
/// the width it has as a bitfield (zero where it is none), and the bit it begins at.
pub ghost struct Member {
    pub name: Seq<char>,
    pub name_off: nat,
    pub size: nat,
    pub bits: nat,
}

/// A type, as written: its name and where that lies, its kind, how many entries
/// follow it, whether its members are packed, and the members where it is a struct.
pub ghost struct Type {
    pub name: Seq<char>,
    pub name_off: nat,
    pub kind: nat,
    pub vlen: nat,
    pub packed: bool,
    pub members: Seq<Member>,
}

/// A buffer, as written: its byte order, its header and its types. Both sections are
/// counted from the end of the header.
pub ghost struct Document {
    pub big_endian: bool,
    pub hdr_len: nat,
    pub type_off: nat,
    pub str_off: nat,
    pub types: Seq<Type>,
}

/// The bytes a type of `kind` has behind its header of three words: a word for a
/// number, a variable or a declaration's tag, three words for an array, three words
/// per entry of a struct, a union, a data section or an enumeration of 64 bits, two
/// per entry of an enumeration or a prototype, and none for any other.
pub open spec fn entries_of(kind: nat, vlen: nat) -> nat {
    if kind == 4 || kind == 5 || kind == 15 || kind == 19 {
        vlen * 12
    } else if kind == 6 || kind == 13 {
        vlen * 8
    } else if kind == 3 {
        12
    } else if kind == 1 || kind == 14 || kind == 17 {
        4
    } else {
        0
    }
}

impl Document {
    /// Where the `i`th type begins: they follow one another.
    pub open spec fn position(self, i: nat) -> nat
        decreases i,
    {
        if i == 0 {
            self.hdr_len + self.type_off
        } else {
            let before = self.types[i - 1];
            self.position((i - 1) as nat) + 12 + entries_of(before.kind, before.vlen)
        }
    }

    /// Where the types end.
    pub open spec fn end(self) -> nat {
        self.position(self.types.len())
    }

    /// Where the strings begin.
    pub open spec fn strings(self) -> nat {
        self.hdr_len + self.str_off
    }
}

/// `data` holds the word `value` at `at`, in the given byte order.
#[verifier::opaque]
pub open spec fn stored(data: Seq<u8>, big_endian: bool, at: nat, value: nat) -> bool {
    &&& at + 4 <= data.len()
    &&& value <= u32::MAX
    &&& data.subrange(at as int, at as int + 4) == common::word_bytes(value as u32, big_endian)
}

/// `data` holds `name` at `at`, with a zero behind it and none in it.
#[verifier::opaque]
pub open spec fn named(data: Seq<u8>, at: nat, name: Seq<char>) -> bool {
    let bytes = encode_utf8(name);
    &&& at + bytes.len() < data.len()
    &&& data.subrange(at as int, (at + bytes.len()) as int) == bytes
    &&& data[(at + bytes.len()) as int] == 0
    &&& forall|i: int| 0 <= i < bytes.len() ==> #[trigger] bytes[i] != 0
}

/// `data` holds the `j`th member of the type that begins at `at`.
pub open spec fn holds_member(data: Seq<u8>, d: Document, t: Type, at: nat, j: int) -> bool {
    let m = t.members[j];
    let here = (at + 12 + 12 * j) as nat;
    &&& stored(data, d.big_endian, here, m.name_off)
    &&& named(data, d.strings() + m.name_off, m.name)
    &&& if t.packed {
        m.size < 0x100 && m.bits < 0x100_0000 && stored(
            data,
            d.big_endian,
            here + 8,
            m.size * 0x100_0000 + m.bits,
        )
    } else {
        stored(data, d.big_endian, here + 8, m.bits)
    }
}

/// `data` holds the `i`th type.
pub open spec fn holds_type(data: Seq<u8>, d: Document, i: int) -> bool {
    let t = d.types[i];
    let at = d.position(i as nat);
    &&& t.kind < 32 && t.vlen < 0x1_0000
    &&& stored(data, d.big_endian, at, t.name_off)
    &&& named(data, d.strings() + t.name_off, t.name)
    &&& stored(
        data,
        d.big_endian,
        at + 4,
        t.vlen + t.kind * 0x100_0000 + if t.packed {
            0x8000_0000nat
        } else {
            0
        },
    )
    &&& t.kind == 4 ==> t.members.len() == t.vlen && forall|j: int|
        0 <= j < t.vlen ==> #[trigger] holds_member(data, d, t, at, j)
}

/// `data` is `d`, written out: the magic, the header's words, the types one after the
/// other and the names they refer to.
pub open spec fn encodes(data: Seq<u8>, d: Document) -> bool {
    &&& data.len() >= 24
    &&& if d.big_endian {
        data[0] == 0xeb && data[1] == 0x9f
    } else {
        data[0] == 0x9f && data[1] == 0xeb
    }
    &&& stored(data, d.big_endian, 4, d.hdr_len)
    &&& stored(data, d.big_endian, 8, d.type_off)
    &&& stored(data, d.big_endian, 12, (d.end() - d.position(0)) as nat)
    &&& stored(data, d.big_endian, 16, d.str_off)
    &&& d.end() <= data.len()
    &&& forall|i: int| 0 <= i < d.types.len() ==> #[trigger] holds_type(data, d, i)
}

// ── Laws ─────────────────────────────────────────────────────────────────────

/// A field is found where it was written: in a buffer with a struct of that name, and
/// none before it, that has a member of that name, and none before it, the lookup gives
/// the byte that the member's first bit lies in - whatever else the buffer holds,
/// whichever byte order it is in, and whether the struct packs bitfields or not.
#[verifier::spinoff_prover]
#[verifier::rlimit(40)]
pub proof fn a_field_is_found_where_it_was_written(
    data: Seq<u8>,
    d: Document,
    i: int,
    j: int,
    byte: nat,
    bit: nat,
)
    requires
        encodes(data, d),
        0 <= i < d.types.len(),
        d.types[i].kind == 4,
        forall|k: int|
            0 <= k < i ==> !((#[trigger] d.types[k]).kind == 4 && d.types[k].name
                == d.types[i].name),
        0 <= j < d.types[i].members.len(),
        forall|k: int|
            0 <= k < j ==> (#[trigger] d.types[i].members[k]).name != d.types[i].members[j].name,
        bit < 8,
        d.types[i].members[j].bits == 8 * byte + bit,
    ensures
        btf::header(data) matches Ok(layout) && layout.lookup(
            d.types[i].name,
            d.types[i].members[j].name,
        ) == Ok::<nat, BtfError>(byte),
{
    lemma_header(data, d);
    let layout = btf::header(data)->Ok_0;
    let (t, at) = (d.types[i], d.position(i as nat));
    lemma_struct(data, d, layout, 0, i, t.name);
    assert(holds_type(data, d, i));
    lemma_type(data, d, layout, i);
    lemma_member(data, d, layout, i, 0, j);
}

/// What was not written is not found: without a struct of that name the lookup says so,
/// and without such a member of the first one.
pub proof fn what_was_not_written_is_not_found(
    data: Seq<u8>,
    d: Document,
    struct_name: Seq<char>,
    field: Seq<char>,
    i: int,
)
    requires
        encodes(data, d),
    ensures
        btf::header(data) is Ok,
        (forall|k: int|
            0 <= k < d.types.len() ==> !((#[trigger] d.types[k]).kind == 4 && d.types[k].name
                == struct_name)) ==> btf::header(data)->Ok_0.lookup(struct_name, field) == Err::<
            nat,
            BtfError,
        >(BtfError::NoStruct),
        0 <= i < d.types.len() && d.types[i].kind == 4 && d.types[i].name == struct_name && (
        forall|k: int|
            0 <= k < i ==> !((#[trigger] d.types[k]).kind == 4 && d.types[k].name == struct_name))
            && (forall|k: int|
            0 <= k < d.types[i].members.len() ==> (#[trigger] d.types[i].members[k]).name != field)
            ==> btf::header(data)->Ok_0.lookup(struct_name, field) == Err::<nat, BtfError>(
            BtfError::NoField,
        ),
{
    lemma_header(data, d);
    let layout = btf::header(data)->Ok_0;
    if forall|k: int|
        0 <= k < d.types.len() ==> !((#[trigger] d.types[k]).kind == 4 && d.types[k].name
            == struct_name) {
        lemma_no_struct(data, d, layout, 0, struct_name);
    }
    if 0 <= i < d.types.len() && d.types[i].kind == 4 && d.types[i].name == struct_name && (
    forall|k: int|
        0 <= k < i ==> !((#[trigger] d.types[k]).kind == 4 && d.types[k].name == struct_name))
        && (forall|k: int|
        0 <= k < d.types[i].members.len() ==> (#[trigger] d.types[i].members[k]).name != field) {
        lemma_struct(data, d, layout, 0, i, struct_name);
        assert(holds_type(data, d, i));
        lemma_type(data, d, layout, i);
        lemma_no_member(data, d, layout, i, 0, field);
    }
}

/// A buffer is turned down for its length before its magic, and for nothing else.
pub proof fn only_a_header_is_asked_for(data: Seq<u8>)
    ensures
        btf::header(data) == Err::<Layout, BtfError>(BtfError::TooSmall) <==> data.len() <= 23,
        btf::header(data) == Err::<Layout, BtfError>(BtfError::BadMagic) <==> data.len() >= 24
            && data.take(2) != seq![0x9fu8, 0xebu8] && data.take(2) != seq![0xebu8, 0x9fu8],
        btf::header(data) is Ok <==> data.len() >= 24 && (data.take(2) == seq![0x9fu8, 0xebu8]
            || data.take(2) == seq![0xebu8, 0x9fu8]),
{
    if data.len() >= 24 {
        let two = data.take(2);
        assert(two[0] == data[0] && two[1] == data[1]);
        assert(data[0] == 0x9f && data[1] == 0xeb ==> two =~= seq![0x9fu8, 0xebu8]);
        assert(data[0] == 0xeb && data[1] == 0x9f ==> two =~= seq![0xebu8, 0x9fu8]);
    }
}

/// A written word reads back.
proof fn lemma_word(layout: Layout, big_endian: bool, at: nat, value: nat)
    requires
        stored(layout.data, big_endian, at, value),
        layout.le == !big_endian,
    ensures
        layout.word(at) == Some(value),
{
    reveal(stored);
    let b = layout.data.subrange(at as int, at as int + 4);
    let w = common::word_bytes(value as u32, big_endian);
    assert(b[0] == w[0] && b[1] == w[1] && b[2] == w[2] && b[3] == w[3]);
}

/// A written name reads back.
proof fn lemma_name(layout: Layout, off: nat, name: Seq<char>)
    requires
        named(layout.data, layout.str_off + off, name),
    ensures
        layout.name(off) == name,
{
    reveal(named);
    let at = layout.str_off + off;
    let bytes = encode_utf8(name);
    let rest = layout.data.skip(at as int);
    assert forall|i: int| 0 <= i < bytes.len() implies rest[i] == #[trigger] bytes[i] by {
        assert(layout.data.subrange(at as int, (at + bytes.len()) as int)[i] == rest[i]);
    }
    text::a_zero_ends_a_name(bytes, rest.skip(bytes.len() as int));
    assert(rest =~= bytes + rest.skip(bytes.len() as int));
    encode_utf8_decode_utf8(name);
    encode_utf8_valid_utf8(name);
}

/// The header gives back where the sections lie.
proof fn lemma_header(data: Seq<u8>, d: Document)
    requires
        encodes(data, d),
    ensures
        btf::header(data) matches Ok(layout) && layout.data == data && layout.le == !d.big_endian
            && layout.type_off == d.position(0) && layout.type_end() == d.end() && layout.str_off
            == d.strings(),
{
    let raw = Layout { data, le: data[0] == 0x9f, type_off: 0, type_len: 0, str_off: 0 };
    lemma_word(raw, d.big_endian, 4, d.hdr_len);
    lemma_word(raw, d.big_endian, 8, d.type_off);
    lemma_word(raw, d.big_endian, 12, (d.end() - d.position(0)) as nat);
    lemma_word(raw, d.big_endian, 16, d.str_off);
    lemma_positions(d, 0, d.types.len());
}

/// Later types lie further on.
proof fn lemma_positions(d: Document, i: nat, n: nat)
    requires
        i <= n,
    ensures
        d.position(i) + 12 * (n - i) <= d.position(n),
    decreases n,
{
    if i < n {
        lemma_positions(d, i, (n - 1) as nat);
    }
}

spec fn reads(data: Seq<u8>, d: Document, layout: Layout) -> bool {
    layout.data == data && layout.le == !d.big_endian && layout.type_off == d.position(0)
        && layout.type_end() == d.end() && layout.str_off == d.strings()
}

/// What the reader makes of a type's header.
#[verifier::spinoff_prover]
#[verifier::rlimit(40)]
proof fn lemma_type(data: Seq<u8>, d: Document, layout: Layout, i: int)
    requires
        encodes(data, d),
        reads(data, d, layout),
        0 <= i < d.types.len(),
    ensures
        ({
            let (t, at) = (d.types[i], d.position(i as nat));
            &&& at + 12 <= layout.type_end()
            &&& btf::kind_of(layout.info(at)) == t.kind
            &&& btf::vlen_of(layout.info(at)) == t.vlen
            &&& btf::packs_bitfields(layout.info(at)) == t.packed
            &&& layout.after(at) == d.position((i + 1) as nat)
            &&& layout.word(at) matches Some(n) && layout.name(n) == t.name
        }),
{
    let (t, at) = (d.types[i], d.position(i as nat));
    assert(holds_type(data, d, i));
    lemma_positions(d, (i + 1) as nat, d.types.len());
    let info = t.vlen + t.kind * 0x100_0000 + if t.packed {
        0x8000_0000nat
    } else {
        0
    };
    lemma_word(layout, d.big_endian, at, t.name_off);
    lemma_word(layout, d.big_endian, at + 4, info);
    lemma_name(layout, t.name_off, t.name);
    lemma_info(t.kind, t.vlen, t.packed);
    assert(d.position((i + 1) as nat) == at + 12 + entries_of(t.kind, t.vlen));
}

/// A type's second word gives back what it was put together from.
proof fn lemma_info(kind: nat, vlen: nat, packed: bool)
    requires
        kind < 32,
        vlen < 0x1_0000,
    ensures
        ({
            let info = vlen + kind * 0x100_0000 + if packed {
                0x8000_0000nat
            } else {
                0
            };
            &&& btf::kind_of(info) == kind
            &&& btf::vlen_of(info) == vlen
            &&& btf::packs_bitfields(info) == packed
            &&& btf::trailing(kind, vlen) == entries_of(kind, vlen)
        }),
{
}

/// The first struct of a name is found from any type on that is not behind it.
proof fn lemma_struct(
    data: Seq<u8>,
    d: Document,
    layout: Layout,
    from: nat,
    i: int,
    name: Seq<char>,
)
    requires
        encodes(data, d),
        reads(data, d, layout),
        from <= i < d.types.len(),
        d.types[i].kind == 4,
        d.types[i].name == name,
        forall|k: int|
            from <= k < i ==> !((#[trigger] d.types[k]).kind == 4 && d.types[k].name == name),
    ensures
        layout.first_struct(layout.types(d.position(from)), name) == Some(d.position(i as nat)),
    decreases i - from,
{
    let at = d.position(from);
    lemma_type(data, d, layout, from as int);
    assert(layout.types(at)[0] == at);
    assert(layout.types(at).drop_first() == layout.types(layout.after(at)));
    if from < i {
        assert(!(d.types[from as int].kind == 4 && d.types[from as int].name == name));
        lemma_struct(data, d, layout, from + 1, i, name);
    }
}

proof fn lemma_no_struct(data: Seq<u8>, d: Document, layout: Layout, from: nat, name: Seq<char>)
    requires
        encodes(data, d),
        reads(data, d, layout),
        from <= d.types.len(),
        forall|k: int|
            from <= k < d.types.len() ==> !((#[trigger] d.types[k]).kind == 4 && d.types[k].name
                == name),
    ensures
        layout.first_struct(layout.types(d.position(from)), name) is None,
    decreases d.types.len() - from,
{
    let at = d.position(from);
    if from < d.types.len() {
        lemma_type(data, d, layout, from as int);
        assert(layout.types(at)[0] == at);
        assert(layout.types(at).drop_first() == layout.types(layout.after(at)));
        assert(!(d.types[from as int].kind == 4 && d.types[from as int].name == name));
        lemma_no_struct(data, d, layout, from + 1, name);
    }
}

/// What the reader makes of a member.
proof fn lemma_one_member(data: Seq<u8>, d: Document, layout: Layout, i: int, j: int)
    requires
        encodes(data, d),
        reads(data, d, layout),
        0 <= i < d.types.len(),
        d.types[i].kind == 4,
        0 <= j < d.types[i].members.len(),
    ensures
        ({
            let (t, at) = (d.types[i], d.position(i as nat));
            let here = at + 12 + 12 * (j as nat);
            &&& layout.word(here) matches Some(n) && layout.name(n) == t.members[j].name
            &&& layout.word(here + 8) is Some
            &&& layout.member_bits(at, j as nat) == t.members[j].bits
        }),
{
    let (t, at) = (d.types[i], d.position(i as nat));
    let m = t.members[j];
    let here = at + 12 + 12 * (j as nat);
    assert(holds_type(data, d, i));
    assert(holds_member(data, d, t, at, j));
    lemma_type(data, d, layout, i);
    lemma_word(layout, d.big_endian, here, m.name_off);
    lemma_name(layout, m.name_off, m.name);
    if t.packed {
        lemma_word(layout, d.big_endian, here + 8, m.size * 0x100_0000 + m.bits);
    } else {
        lemma_word(layout, d.big_endian, here + 8, m.bits);
    }
}

/// The first member of a name is found from any member on that is not behind it.
proof fn lemma_member(data: Seq<u8>, d: Document, layout: Layout, i: int, from: nat, j: int)
    requires
        encodes(data, d),
        reads(data, d, layout),
        0 <= i < d.types.len(),
        d.types[i].kind == 4,
        from <= j < d.types[i].members.len(),
        forall|k: int|
            from <= k < j ==> (#[trigger] d.types[i].members[k]).name
                != d.types[i].members[j].name,
    ensures
        ({
            let at = d.position(i as nat);
            &&& layout.first_member(at, from, d.types[i].members[j].name) == Some(j as nat)
            &&& layout.member_bits(at, j as nat) == d.types[i].members[j].bits
        }),
    decreases j - from,
{
    assert(holds_type(data, d, i));
    lemma_type(data, d, layout, i);
    lemma_one_member(data, d, layout, i, from as int);
    lemma_one_member(data, d, layout, i, j);
    if from < j {
        assert(d.types[i].members[from as int].name != d.types[i].members[j].name);
        lemma_member(data, d, layout, i, from + 1, j);
    }
}

proof fn lemma_no_member(
    data: Seq<u8>,
    d: Document,
    layout: Layout,
    i: int,
    from: nat,
    field: Seq<char>,
)
    requires
        encodes(data, d),
        reads(data, d, layout),
        0 <= i < d.types.len(),
        d.types[i].kind == 4,
        from <= d.types[i].members.len(),
        forall|k: int|
            from <= k < d.types[i].members.len() ==> (#[trigger] d.types[i].members[k]).name
                != field,
    ensures
        layout.first_member(d.position(i as nat), from, field) is None,
    decreases d.types[i].members.len() - from,
{
    assert(holds_type(data, d, i));
    lemma_type(data, d, layout, i);
    if from < d.types[i].members.len() {
        lemma_one_member(data, d, layout, i, from as int);
        assert(d.types[i].members[from as int].name != field);
        lemma_no_member(data, d, layout, i, from + 1, field);
    }
}

} // verus!
