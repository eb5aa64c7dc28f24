//! The legacy assembly tree: instructions, the nested data section, and the
//! canonical byte rendering that its content hash is taken over.

use vstd::prelude::*;
use crate::hashing::{keccak256, keccak256_hex};
use vstd::utf8::encode_utf8;

verus! {

/// One assembly element: an opcode name and its optional operand.
pub struct Instruction {
    pub name: String,
    pub value: Option<String>,
}

/// An entry of an assembly's data section.
pub enum Data {
    /// A nested assembly: a contract created by this one, or this contract's
    /// runtime code at the runtime slot.
    Assembly(Assembly),
    /// A hexadecimal blob, or the content hash of another contract.
    Hash(String),
}

/// A keyed entry of the data section.
pub struct DataEntry {
    pub key: String,
    pub data: Data,
}

/// One contract's legacy assembly.
pub struct Assembly {
    /// The contract's fully qualified path, set during dependency resolution.
    pub full_path: Option<String>,
    /// The deploy code.
    pub code: Option<Vec<Instruction>>,
    /// The data section, in key order.
    pub data: Option<Vec<DataEntry>>,
}

pub open spec fn opt_view(o: Option<String>) -> Option<Seq<char>> {
    match o {
        Some(s) => Some(s@),
        None => None,
    }
}

pub open spec fn instruction_bytes(i: Instruction) -> Seq<u8> {
    match i.value {
        Some(v) => encode_utf8(i.name@) + seq![32u8] + encode_utf8(v@) + seq![10u8],
        None => encode_utf8(i.name@) + seq![10u8],
    }
}

pub open spec fn instructions_bytes(code: Seq<Instruction>) -> Seq<u8>
    decreases code.len(),
{
    if code.len() == 0 {
        Seq::empty()
    } else {
        instructions_bytes(code.drop_last()) + instruction_bytes(code.last())
    }
}

pub open spec fn code_bytes(code: Option<Vec<Instruction>>) -> Seq<u8> {
    match code {
        Some(c) => instructions_bytes(c@),
        None => Seq::empty(),
    }
}

/// The number of entries of the data section.
pub open spec fn data_len(a: Assembly) -> nat {
    match a.data {
        Some(d) => d@.len(),
        None => 0,
    }
}

/// The canonical rendering of an assembly: its code, one instruction a line,
/// then its data section, one `key:` entry a line, a nested assembly inside
/// braces. The path is not part of it.
pub open spec fn assembly_bytes(a: Assembly) -> Seq<u8>
    decreases a, data_len(a) + 1,
{
    code_bytes(a.code) + data_bytes(a, data_len(a) as int)
}

/// The rendering of the first `n` entries of the data section of `a`.
pub open spec fn data_bytes(a: Assembly, n: int) -> Seq<u8>
    decreases a, n,
{
    if n <= 0 || n > data_len(a) {
        Seq::empty()
    } else {
        let e = a.data->Some_0@[n - 1];
        data_bytes(a, n - 1) + encode_utf8(e.key@) + seq![58u8] + match e.data {
            Data::Assembly(inner) => seq![123u8] + assembly_bytes(inner) + seq![125u8],
            Data::Hash(h) => encode_utf8(h@),
        } + seq![10u8]
    }
}

/// The rendering of one data-section entry.
pub open spec fn entry_bytes(e: DataEntry) -> Seq<u8> {
    encode_utf8(e.key@) + seq![58u8] + match e.data {
        Data::Assembly(inner) => seq![123u8] + assembly_bytes(inner) + seq![125u8],
        Data::Hash(h) => encode_utf8(h@),
    } + seq![10u8]
}

/// The content hash of an assembly.
pub open spec fn content_hash(a: Assembly) -> Seq<char> {
    keccak256_hex(assembly_bytes(a))
}

/// Appends the UTF-8 bytes of `s` to `out`.
fn push_str_bytes(out: &mut Vec<u8>, s: &String)
    ensures
        final(out)@ == old(out)@ + encode_utf8(s@),
{
    let b = s.as_str().as_bytes();
    let mut i: usize = 0;
    while i < b.len()
        invariant
            i <= b@.len(),
            b@ == encode_utf8(s@),
            out@ == old(out)@ + b@.take(i as int),
        decreases b@.len() - i,
    {
        out.push(b[i]);
        proof {
            assert(b@.take(i + 1) =~= b@.take(i as int).push(b@[i as int]));
        }
        i = i + 1;
    }
    proof {
        assert(b@.take(b@.len() as int) =~= b@);
    }
}

fn push_byte(out: &mut Vec<u8>, b: u8)
    ensures
        final(out)@ == old(out)@ + seq![b],
{
    out.push(b);
    proof {
        assert(out@ =~= old(out)@ + seq![b]);
    }
}

fn push_instructions(out: &mut Vec<u8>, code: &Vec<Instruction>)
    ensures
        final(out)@ == old(out)@ + instructions_bytes(code@),
{
    let mut i: usize = 0;
    while i < code.len()
        invariant
            i <= code@.len(),
            out@ == old(out)@ + instructions_bytes(code@.take(i as int)),
        decreases code@.len() - i,
    {
        let ins = &code[i];
        push_str_bytes(out, &ins.name);
        match &ins.value {
            Some(v) => {
                push_byte(out, 32u8);
                push_str_bytes(out, v);
            },
            None => {},
        }
        push_byte(out, 10u8);
        proof {
            assert(code@.take(i + 1).drop_last() =~= code@.take(i as int));
            assert(out@ =~= old(out)@ + instructions_bytes(code@.take(i + 1)));
        }
        i = i + 1;
    }
    proof {
        assert(code@.take(code@.len() as int) =~= code@);
    }
}

/// Appends the canonical rendering of `a` to `out`.
fn push_assembly(out: &mut Vec<u8>, a: &Assembly)
    ensures
        final(out)@ == old(out)@ + assembly_bytes(*a),
    decreases a, data_len(*a) + 1,
{
    match &a.code {
        Some(c) => push_instructions(out, c),
        None => {},
    }
    proof {
        assert(out@ =~= old(out)@ + code_bytes(a.code));
    }
    let ghost mid = out@;
    match &a.data {
        Some(d) => {
            let mut i: usize = 0;
            while i < d.len()
                invariant
                    a.data == Some(*d),
                    i <= d@.len(),
                    out@ == mid + data_bytes(*a, i as int),
                decreases d@.len() - i,
            {
                let e = &d[i];
                proof {
                    assert(decreases_to!(*a => e.data));
                }
                push_str_bytes(out, &e.key);
                push_byte(out, 58u8);
                match &e.data {
                    Data::Assembly(inner) => {
                        push_byte(out, 123u8);
                        push_assembly(out, inner);
                        push_byte(out, 125u8);
                    },
                    Data::Hash(h) => push_str_bytes(out, h),
                }
                push_byte(out, 10u8);
                proof {
                    assert(out@ =~= mid + data_bytes(*a, i + 1));
                }
                i = i + 1;
            }
        },
        None => {},
    }
    proof {
        assert(out@ =~= old(out)@ + assembly_bytes(*a));
    }
}

impl Assembly {
    /// The canonical rendering that the content hash is taken over.
    pub fn to_bytes(&self) -> (r: Vec<u8>)
        ensures
            r@ == assembly_bytes(*self),
    {
        let mut out: Vec<u8> = Vec::new();
        push_assembly(&mut out, self);
        proof {
            assert(out@ =~= assembly_bytes(*self));
        }
        out
    }

    /// The content hash: the Keccak-256 digest of the canonical rendering, as
    /// 64 lower-case hexadecimal digits.
    pub fn keccak256(&self) -> (r: String)
        ensures
            r@ == content_hash(*self),
            r@.len() == 64,
    {
        let bytes = self.to_bytes();
        keccak256(bytes.as_slice())
    }

    /// Sets the contract's fully qualified path.
    pub fn set_full_path(&mut self, full_path: String)
        ensures
            final(self).full_path == Some(full_path),
            final(self).code == old(self).code,
            final(self).data == old(self).data,
    {
        self.full_path = Some(full_path);
    }
}

} // verus!
