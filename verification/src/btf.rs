//! Minimal BTF reader: resolves a struct field's byte offset from the type
//! information a kernel ships of itself.
//!
//! The buffer is untrusted: every offset in it is checked against its length
//! before it is followed, so no input makes a lookup read out of bounds.

use vstd::prelude::*;
use vstd::slice::slice_subrange;
use vstd::utf8::*;

use crate::text;
use crate::text::same;

verus! {

// BTF kind tags (uapi/linux/btf.h).
pub const KIND_INT: u32 = 1;

pub const KIND_ARRAY: u32 = 3;

pub const KIND_STRUCT: u32 = 4;

pub const KIND_UNION: u32 = 5;

pub const KIND_ENUM: u32 = 6;

pub const KIND_FUNC_PROTO: u32 = 13;

pub const KIND_VAR: u32 = 14;

pub const KIND_DATASEC: u32 = 15;

pub const KIND_DECL_TAG: u32 = 17;

pub const KIND_ENUM64: u32 = 19;

/// Why a buffer or a lookup in it was turned down.
#[derive(Clone, Copy, Debug, PartialEq, Eq, Structural)]
pub enum BtfError {
    /// Fewer bytes than a header takes.
    TooSmall,
    /// The magic is wrong in both byte orders.
    BadMagic,
    /// No struct of that name.
    NoStruct,
    /// The struct has no field of that name.
    NoField,
}

impl BtfError {
    /// The buffer itself was turned down, not a lookup in it.
    pub open spec fn is_malformed(self) -> bool {
        self is TooSmall || self is BadMagic
    }

    /// Whether the buffer itself was turned down.
    pub fn malformed(&self) -> (r: bool)
        ensures
            r == self.is_malformed(),
    {
        match self {
            BtfError::TooSmall | BtfError::BadMagic => true,
            _ => false,
        }
    }

    /// The message for the failure of a lookup of `field` in `struct_name`.
    pub open spec fn text(self, struct_name: Seq<char>, field: Seq<char>) -> Seq<char> {
        match self {
            BtfError::TooSmall => "too small to be valid BTF"@,
            BtfError::BadMagic => "bad BTF magic"@,
            BtfError::NoStruct => "struct `"@ + struct_name + "` not found in BTF"@,
            BtfError::NoField => "field `"@ + field + "` not found in `"@ + struct_name + "`"@,
        }
    }

    /// The message for the failure of a lookup of `field` in `struct_name`.
    pub fn message(&self, struct_name: &str, field: &str) -> (out: String)
        ensures
            out@ == self.text(struct_name@, field@),
    {
        match self {
            BtfError::TooSmall => "too small to be valid BTF".to_owned(),
            BtfError::BadMagic => "bad BTF magic".to_owned(),
            BtfError::NoStruct => {
                let mut out = "struct `".to_owned();
                out.append(struct_name);
                out.append("` not found in BTF");
                out
            },
            BtfError::NoField => {
                let mut out = "field `".to_owned();
                out.append(field);
                out.append("` not found in `");
                out.append(struct_name);
                out.append("`");
                out
            },
        }
    }
}

/// `std::str::from_utf8` returns the text that a slice encodes exactly when the
/// slice is valid UTF-8, over the same bytes.
#[verifier::external_body]
fn utf8_text(bytes: &[u8]) -> (out: Option<&str>)
    ensures
        out is Some == valid_utf8(bytes@),
        out matches Some(s) ==> encode_utf8(s@) == bytes@,
{
    std::str::from_utf8(bytes).ok()
}

// ── The format ───────────────────────────────────────────────────────────────

/// A buffer with its byte order and its section bounds.
pub ghost struct Layout {
    pub data: Seq<u8>,
    pub le: bool,
    pub type_off: nat,
    pub type_len: nat,
    pub str_off: nat,
}

/// The number four bytes hold, least significant first.
pub open spec fn le_value(b: Seq<u8>) -> nat {
    (b[0] + 0x100 * b[1] + 0x1_0000 * b[2] + 0x100_0000 * b[3]) as nat
}

/// The number four bytes hold, most significant first.
pub open spec fn be_value(b: Seq<u8>) -> nat {
    (b[3] + 0x100 * b[2] + 0x1_0000 * b[1] + 0x100_0000 * b[0]) as nat
}

/// The entries a type's header announces: its low sixteen bits.
pub open spec fn vlen_of(info: nat) -> nat {
    info % 0x1_0000
}

/// A type's kind: five bits from bit 24.
pub open spec fn kind_of(info: nat) -> nat {
    (info / 0x100_0000) % 32
}

/// The struct packs bitfield sizes beside its offsets: the top bit.
pub open spec fn packs_bitfields(info: nat) -> bool {
    info / 0x8000_0000 == 1
}

/// Bytes of trailing data after the twelve of a type's header.
pub open spec fn trailing(kind: nat, vlen: nat) -> nat {
    if kind == KIND_INT || kind == KIND_VAR || kind == KIND_DECL_TAG {
        4
    } else if kind == KIND_ARRAY {
        12
    } else if kind == KIND_STRUCT || kind == KIND_UNION || kind == KIND_DATASEC || kind
        == KIND_ENUM64 {
        12 * vlen
    } else if kind == KIND_ENUM || kind == KIND_FUNC_PROTO {
        8 * vlen
    } else {
        0
    }
}

impl Layout {
    /// The word at byte `at`, or `None` where it would reach past the buffer.
    pub open spec fn word(self, at: nat) -> Option<nat> {
        if at + 4 <= self.data.len() {
            let b = self.data.subrange(at as int, at as int + 4);
            Some(if self.le { le_value(b) } else { be_value(b) })
        } else {
            None
        }
    }

    /// The name at `off` in the string section: empty past the buffer, and where
    /// the bytes up to the terminator are not UTF-8.
    pub open spec fn name(self, off: nat) -> Seq<char> {
        if self.str_off + off <= self.data.len() {
            let bytes = text::until_nul(self.data.skip((self.str_off + off) as int));
            if valid_utf8(bytes) {
                decode_utf8(bytes)
            } else {
                seq![]
            }
        } else {
            seq![]
        }
    }

    /// Where the type section ends: where the header says, or with the buffer.
    pub open spec fn type_end(self) -> nat {
        if self.type_off + self.type_len <= self.data.len() {
            self.type_off + self.type_len
        } else {
            self.data.len()
        }
    }

    /// The `info` word of the type at `at`.
    pub open spec fn info(self, at: nat) -> nat {
        self.word(at + 4).unwrap()
    }

    /// Where the type after the one at `at` begins.
    pub open spec fn after(self, at: nat) -> nat {
        at + 12 + trailing(kind_of(self.info(at)), vlen_of(self.info(at)))
    }

    /// The offsets of the types that begin at `at` or later.
    pub open spec fn types(self, at: nat) -> Seq<nat>
        decreases
            (if at <= self.type_end() {
                self.type_end() - at
            } else {
                0
            }),
    {
        if at + 12 <= self.type_end() {
            seq![at] + self.types(self.after(at))
        } else {
            seq![]
        }
    }

    /// The type at `at` is a struct called `name`.
    pub open spec fn is_struct(self, at: nat, name: Seq<char>) -> bool {
        kind_of(self.info(at)) == KIND_STRUCT && (self.word(at) matches Some(n) && self.name(n)
            == name)
    }

    /// The first of `types` that is a struct called `name`.
    pub open spec fn first_struct(self, types: Seq<nat>, name: Seq<char>) -> Option<nat>
        decreases types.len(),
    {
        if types.len() == 0 {
            None
        } else if self.is_struct(types[0], name) {
            Some(types[0])
        } else {
            self.first_struct(types.drop_first(), name)
        }
    }

    /// The `i`th member of the struct at `at` can be read and is called `name`.
    pub open spec fn is_member(self, at: nat, i: nat, name: Seq<char>) -> bool {
        let m = at + 12 + 12 * i;
        &&& self.word(m) matches Some(n) && self.name(n) == name
        &&& self.word(m + 8) is Some
    }

    /// The first member from the `i`th on of the struct at `at` that is called
    /// `name`.
    pub open spec fn first_member(self, at: nat, i: nat, name: Seq<char>) -> Option<nat>
        decreases vlen_of(self.info(at)) - i,
    {
        if i >= vlen_of(self.info(at)) {
            None
        } else if self.is_member(at, i, name) {
            Some(i)
        } else {
            self.first_member(at, i + 1, name)
        }
    }

    /// The bit offset of the `i`th member of the struct at `at`.
    pub open spec fn member_bits(self, at: nat, i: nat) -> nat {
        let bits = self.word(at + 12 + 12 * i + 8).unwrap();
        if packs_bitfields(self.info(at)) {
            bits % 0x100_0000
        } else {
            bits
        }
    }

    /// The byte offset of `field` in the first struct called `struct_name`.
    pub open spec fn lookup(self, struct_name: Seq<char>, field: Seq<char>) -> Result<
        nat,
        BtfError,
    > {
        match self.first_struct(self.types(self.type_off), struct_name) {
            None => Err(BtfError::NoStruct),
            Some(at) => match self.first_member(at, 0, field) {
                None => Err(BtfError::NoField),
                Some(i) => Ok(self.member_bits(at, i) / 8),
            },
        }
    }
}

/// The layout a buffer's header describes.
pub open spec fn header(data: Seq<u8>) -> Result<Layout, BtfError> {
    if data.len() < 24 {
        Err(BtfError::TooSmall)
    } else if !(data[0] == 0x9f && data[1] == 0xeb) && !(data[0] == 0xeb && data[1] == 0x9f) {
        Err(BtfError::BadMagic)
    } else {
        let raw = Layout { data, le: data[0] == 0x9f, type_off: 0, type_len: 0, str_off: 0 };
        let hdr_len = raw.word(4).unwrap();
        Ok(
            Layout {
                type_off: hdr_len + raw.word(8).unwrap(),
                type_len: raw.word(12).unwrap(),
                str_off: hdr_len + raw.word(16).unwrap(),
                ..raw
            },
        )
    }
}

// ── Laws ─────────────────────────────────────────────────────────────────────

/// Two buffers describe the same types: as long, laid out alike, with the same
/// words at every fourth byte of their type sections and the same names, whatever
/// byte order each is in.
pub open spec fn same_types(a: Layout, b: Layout) -> bool {
    &&& a.data.len() == b.data.len()
    &&& a.type_off == b.type_off
    &&& a.type_len == b.type_len
    &&& forall|at: nat|
        at >= a.type_off && (at - a.type_off) % 4 == 0 ==> #[trigger] a.word(at) == b.word(at)
    &&& forall|off: nat| #[trigger] a.name(off) == b.name(off)
}

/// A lookup does not depend on the byte order a buffer is in: two buffers that
/// describe the same types give the same answer.
pub proof fn byte_order_is_immaterial(
    a: Layout,
    b: Layout,
    struct_name: Seq<char>,
    field: Seq<char>,
)
    requires
        same_types(a, b),
    ensures
        a.lookup(struct_name, field) == b.lookup(struct_name, field),
{
    lemma_same_struct(a, b, a.type_off, struct_name);
    if let Some(at) = a.first_struct(a.types(a.type_off), struct_name) {
        lemma_same_member(a, b, at, 0, field);
    }
}

#[verifier::spinoff_prover]
proof fn lemma_same_struct(a: Layout, b: Layout, at: nat, name: Seq<char>)
    requires
        same_types(a, b),
        at >= a.type_off,
        (at - a.type_off) % 4 == 0,
    ensures
        a.first_struct(a.types(at), name) == b.first_struct(b.types(at), name),
        a.first_struct(a.types(at), name) matches Some(s) ==> s >= a.type_off && (s - a.type_off)
            % 4 == 0,
    decreases
            (if at <= a.type_end() {
                a.type_end() - at
            } else {
                0
            }),
{
    if at + 12 <= a.type_end() {
        assert(a.word(at) == b.word(at) && a.word(at + 4) == b.word(at + 4));
        let next = a.after(at);
        let t = trailing(kind_of(a.info(at)), vlen_of(a.info(at)));
        assert(t % 4 == 0);
        assert(next == at + 12 + t && next == b.after(at));
        assert((next - a.type_off) % 4 == 0);
        assert(a.types(at)[0] == at && b.types(at)[0] == at);
        assert(a.types(at).drop_first() == a.types(next));
        assert(b.types(at).drop_first() == b.types(next));
        assert(a.is_struct(at, name) == b.is_struct(at, name)) by {
            if let Some(n) = a.word(at) {
                assert(a.name(n) == b.name(n));
            }
        }
        lemma_same_struct(a, b, next, name);
    }
}

/// A field's byte offset is an eighth of a 32-bit count of bits.
pub proof fn lookup_is_small(layout: Layout, struct_name: Seq<char>, field: Seq<char>)
    ensures
        layout.lookup(struct_name, field) matches Ok(offset) ==> offset <= 0x1fff_ffff,
{
    if let Some(at) = layout.first_struct(layout.types(layout.type_off), struct_name) {
        lemma_member_is_readable(layout, at, 0, field);
    }
}

proof fn lemma_member_is_readable(layout: Layout, at: nat, i: nat, name: Seq<char>)
    ensures
        layout.first_member(at, i, name) matches Some(j) ==> layout.word(at + 12 + 12 * j + 8)
            is Some,
    decreases vlen_of(layout.info(at)) - i,
{
    if i < vlen_of(layout.info(at)) {
        lemma_member_is_readable(layout, at, i + 1, name);
    }
}

proof fn lemma_same_member(a: Layout, b: Layout, at: nat, i: nat, name: Seq<char>)
    requires
        same_types(a, b),
        at >= a.type_off,
        (at - a.type_off) % 4 == 0,
    ensures
        a.first_member(at, i, name) == b.first_member(at, i, name),
        a.first_member(at, i, name) matches Some(j) ==> a.member_bits(at, j) == b.member_bits(
            at,
            j,
        ),
    decreases vlen_of(a.info(at)) - i,
{
    assert(a.word(at + 4) == b.word(at + 4));
    if i < vlen_of(a.info(at)) {
        let m = at + 12 + 12 * i;
        assert(a.word(m) == b.word(m) && a.word(m + 8) == b.word(m + 8));
        if let Some(n) = a.word(m) {
            assert(a.name(n) == b.name(n));
        }
        lemma_same_member(a, b, at, i + 1, name);
    }
}

// ── The reader ───────────────────────────────────────────────────────────────

/// A buffer whose header has been read. Offsets are 64-bit whatever the machine,
/// so sums of the header's 32-bit words never wrap.
pub struct Btf {
    data: Vec<u8>,
    le: bool,
    type_off: u64,
    type_len: u64,
    str_off: u64,
}

impl View for Btf {
    type V = Layout;

    closed spec fn view(&self) -> Layout {
        Layout {
            data: self.data@,
            le: self.le,
            type_off: self.type_off as nat,
            type_len: self.type_len as nat,
            str_off: self.str_off as nat,
        }
    }
}

impl Btf {
    #[verifier::type_invariant]
    spec fn sane(self) -> bool {
        &&& self.type_off <= 0x1_ffff_fffe
        &&& self.type_len <= 0xffff_ffff
        &&& self.str_off <= 0x1_ffff_fffe
    }

    /// Read the header of `data`.
    pub fn from_bytes(data: Vec<u8>) -> (out: Result<Btf, BtfError>)
        ensures
            out matches Ok(btf) ==> header(data@) == Ok::<Layout, BtfError>(btf@),
            out matches Err(e) ==> header(data@) == Err::<Layout, BtfError>(e),
    {
        if data.len() < 24 {
            return Err(BtfError::TooSmall);
        }
        // The magic is 0xeb9f; which of its bytes comes first tells the order.
        let le = if data[0] == 0x9f && data[1] == 0xeb {
            true
        } else if data[0] == 0xeb && data[1] == 0x9f {
            false
        } else {
            return Err(BtfError::BadMagic);
        };
        let raw = Btf { data, le, type_off: 0, type_len: 0, str_off: 0 };
        // btf_header: section offsets are relative to hdr_len.
        let (hdr_len, types, type_len, strings) = match (
            raw.u32(4),
            raw.u32(8),
            raw.u32(12),
            raw.u32(16),
        ) {
            (Some(a), Some(b), Some(c), Some(d)) => (a, b, c, d),
            _ => return Err(BtfError::TooSmall),
        };
        let Btf { data, le, .. } = raw;
        Ok(
            Btf {
                data,
                le,
                type_off: hdr_len as u64 + types as u64,
                type_len: type_len as u64,
                str_off: hdr_len as u64 + strings as u64,
            },
        )
    }

    /// The word at byte `at`, or `None` past the buffer.
    pub fn u32(&self, at: u64) -> (out: Option<u32>)
        ensures
            out is Some == self@.word(at as nat) is Some,
            out matches Some(w) ==> Some(w as nat) == self@.word(at as nat),
    {
        let len = self.data.len();
        if len < 4 || at > (len - 4) as u64 {
            return None;
        }
        let i = at as usize;
        let (a, b, c, d) = (
            self.data[i] as u32,
            self.data[i + 1] as u32,
            self.data[i + 2] as u32,
            self.data[i + 3] as u32,
        );
        Some(
            if self.le {
                a + 0x100 * b + 0x1_0000 * c + 0x100_0000 * d
            } else {
                d + 0x100 * c + 0x1_0000 * b + 0x100_0000 * a
            },
        )
    }

    /// The name at `name_off` in the string section; empty where there is none.
    pub fn string(&self, name_off: u32) -> (out: &str)
        ensures
            out@ == self@.name(name_off as nat),
    {
        proof {
            use_type_invariant(self);
        }
        let at: u64 = self.str_off + name_off as u64;
        if at > self.data.len() as u64 {
            assert(""@ =~= Seq::<char>::empty()) by {
                reveal_strlit("");
            }
            return "";
        }
        let from = at as usize;
        let ghost rest = self.data@.skip(from as int);
        let mut end: usize = from;
        assert(self.data@.subrange(from as int, from as int) + text::until_nul(rest) == text::until_nul(rest));
        while end < self.data.len() && self.data[end] != 0
            invariant
                from <= end <= self.data.len(),
                rest == self.data@.skip(from as int),
                self.data@.subrange(from as int, end as int) + text::until_nul(
                    self.data@.skip(end as int),
                ) == text::until_nul(rest),
            decreases self.data.len() - end,
        {
            let ghost here = self.data@.skip(end as int);
            assert(here.drop_first() == self.data@.skip(end + 1));
            assert(self.data@.subrange(from as int, end as int) + (seq![here[0]] + text::until_nul(
                here.drop_first(),
            )) == self.data@.subrange(from as int, end + 1) + text::until_nul(here.drop_first()));
            end += 1;
        }
        assert(text::until_nul(self.data@.skip(end as int)) == Seq::<u8>::empty());
        let bytes = slice_subrange(self.data.as_slice(), from, end);
        assert(bytes@ == text::until_nul(rest));
        match utf8_text(bytes) {
            Some(s) => {
                proof {
                    encode_utf8_decode_utf8(s@);
                }
                s
            },
            None => {
                assert(""@ =~= Seq::<char>::empty()) by {
                    reveal_strlit("");
                }
                ""
            },
        }
    }

    /// The byte offset of `field` in the first struct called `struct_name`.
    pub fn field_offset(&self, struct_name: &str, field: &str) -> (out: Result<u32, BtfError>)
        ensures
            out matches Ok(offset) ==> self@.lookup(struct_name@, field@) == Ok::<nat, BtfError>(
                offset as nat,
            ),
            out matches Err(e) ==> self@.lookup(struct_name@, field@) == Err::<nat, BtfError>(e),
            out matches Ok(offset) ==> offset <= 0x1fff_ffff,
    {
        proof {
            use_type_invariant(self);
        }
        let ghost layout = self@;
        let len = self.data.len() as u64;
        // Clamp to the buffer: the section length comes from an untrusted header.
        let stated: u64 = self.type_off + self.type_len;
        let end: u64 = if stated <= len { stated } else { len };
        // Type id 0 is void; the section starts at id 1.
        let mut cur: u64 = self.type_off;
        while end >= 12 && cur <= end - 12
            invariant
                layout == self@,
                end == layout.type_end(),
                end <= layout.data.len() <= u64::MAX,
                layout.first_struct(layout.types(layout.type_off), struct_name@)
                    == layout.first_struct(layout.types(cur as nat), struct_name@),
            decreases layout.types(cur as nat).len(),
        {
            let info = match self.u32(cur + 4) {
                Some(info) => info,
                None => {
                    assert(false);
                    return Err(BtfError::NoStruct);
                },
            };
            assert(info & 0xffff == info % 0x1_0000 && (info >> 24) & 0x1f == (info / 0x100_0000)
                % 32 && (info >> 31) & 1 == info / 0x8000_0000) by (bit_vector);
            let vlen = info & 0xffff;
            let kind = (info >> 24) & 0x1f;
            let kflag = (info >> 31) & 1;
            let members: u64 = cur + 12;
            let ghost types = layout.types(cur as nat);
            assert(types[0] == cur);
            assert(types.drop_first() == layout.types(layout.after(cur as nat)));

            let named = match self.u32(cur) {
                Some(n) => same(self.string(n), struct_name),
                None => false,
            };
            if kind == KIND_STRUCT && named {
                let ghost at = cur as nat;
                assert(layout.is_struct(at, struct_name@));
                let mut i: u32 = 0;
                while i < vlen
                    invariant
                        layout == self@,
                        at == cur,
                        members == cur + 12,
                        cur <= u64::MAX - 12,
                        layout.data.len() <= u64::MAX,
                        i <= vlen <= 0xffff,
                        vlen == vlen_of(layout.info(at)),
                        kflag == 1 <==> packs_bitfields(layout.info(at)),
                        layout.first_struct(layout.types(layout.type_off), struct_name@) == Some(
                            at,
                        ),
                        layout.first_member(at, 0, field@) == layout.first_member(
                            at,
                            i as nat,
                            field@,
                        ),
                    decreases vlen - i,
                {
                    // btf_member: name_off, type, offset.
                    let m: u64 = members.saturating_add(i as u64 * 12);
                    if let (Some(name), Some(bits)) = (self.u32(m), self.u32(m.saturating_add(8))) {
                        if same(self.string(name), field) {
                            assert(layout.is_member(at, i as nat, field@));
                            // For bitfield-bearing structs the low 24 bits are the bit
                            // offset; otherwise the whole word is.
                            assert(bits & 0x00ff_ffff == bits % 0x100_0000) by (bit_vector);
                            let bit_off = if kflag == 1 { bits & 0x00ff_ffff } else { bits };
                            return Ok(bit_off / 8);
                        }
                    }
                    i += 1;
                }
                return Err(BtfError::NoField);
            }
            cur = members.saturating_add(extra_len(kind, vlen as u64));
        }
        Err(BtfError::NoStruct)
    }
}

/// Bytes of per-kind trailing data after the twelve-byte `btf_type` header.
pub fn extra_len(kind: u32, vlen: u64) -> (out: u64)
    requires
        12 * vlen <= u64::MAX,
    ensures
        out == trailing(kind as nat, vlen as nat),
{
    if kind == KIND_INT || kind == KIND_VAR || kind == KIND_DECL_TAG {
        4
    } else if kind == KIND_ARRAY {
        12
    } else if kind == KIND_STRUCT || kind == KIND_UNION || kind == KIND_DATASEC || kind
        == KIND_ENUM64 {
        12 * vlen
    } else if kind == KIND_ENUM || kind == KIND_FUNC_PROTO {
        8 * vlen
    } else {
        0
    }
}

/// The byte offset of `field` in `struct_name`, from the BTF in `data`.
pub fn field_byte_offset(data: Vec<u8>, struct_name: &str, field: &str) -> (out: Result<
    u32,
    BtfError,
>)
    ensures
        match header(data@) {
            Ok(layout) => match layout.lookup(struct_name@, field@) {
                Ok(offset) => out matches Ok(o) && o == offset,
                Err(e) => out == Err::<u32, BtfError>(e),
            },
            Err(e) => out == Err::<u32, BtfError>(e),
        },
{
    match Btf::from_bytes(data) {
        Ok(btf) => btf.field_offset(struct_name, field),
        Err(e) => Err(e),
    }
}

/// A buffer is malformed where its header cannot be read; a name that is not found does
/// not make it so.
pub proof fn only_a_header_is_malformed(data: Seq<u8>, struct_name: Seq<char>, field: Seq<char>)
    ensures
        header(data) matches Err(e) ==> e.is_malformed(),
        header(data) matches Ok(layout) ==> (layout.lookup(struct_name, field) matches Err(e)
            ==> !e.is_malformed()),
{
}

/// What was not found is named.
pub proof fn what_was_not_found_is_named(struct_name: Seq<char>, field: Seq<char>)
    ensures
        text::occurs(BtfError::NoStruct.text(struct_name, field), struct_name),
        text::occurs(BtfError::NoField.text(struct_name, field), struct_name),
        text::occurs(BtfError::NoField.text(struct_name, field), field),
{
    text::what_is_put_in_is_found("struct `"@, struct_name, "` not found in BTF"@);
    let message = BtfError::NoField.text(struct_name, field);
    text::what_is_put_in_is_found(
        "field `"@,
        field,
        "` not found in `"@ + struct_name + "`"@,
    );
    assert(message =~= "field `"@ + field + ("` not found in `"@ + struct_name + "`"@));
    text::what_is_put_in_is_found("field `"@ + field + "` not found in `"@, struct_name, "`"@);
}

} // verus!
