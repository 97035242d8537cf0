//! Encoded file descriptor sets: the framing of a set around the encodings
//! of its files, and pools built from what a decoder gave back.
use vstd::prelude::*;
use crate::api::{add_outcome, batch_fits, batch_fits_new, set_pool_result, DescriptorPool};
use crate::error::{DescriptorError, DescriptorErrorKind};
use crate::types::{FileDescriptorProto, FileDescriptorSet};

verus! {

/// The base-128 varint encoding of `n`: seven bits per byte, low bits first,
/// with the high bit set on every byte but the last.
pub open spec fn varint(n: nat) -> Seq<u8>
    decreases n,
{
    if n < 128 {
        seq![n as u8]
    } else {
        seq![(n % 128 + 128) as u8] + varint(n / 128)
    }
}

/// The key of field 1 (`file`) of a file descriptor set, with the
/// length-delimited wire type: `1 << 3 | 2`.
pub open spec fn file_key() -> u8 {
    0x0a
}

/// The encoding of a file descriptor set whose files are encoded as
/// `files`, in order: for each, the key of field 1, the length as a varint,
/// then the file's bytes.
pub open spec fn set_bytes(files: Seq<Seq<u8>>) -> Seq<u8>
    decreases files.len(),
{
    if files.len() == 0 {
        Seq::empty()
    } else {
        set_bytes(files.drop_last()) + seq![file_key()] + varint(files.last().len()) + files.last()
    }
}

/// The byte sequences of a list of byte vectors.
pub open spec fn views(files: Seq<Vec<u8>>) -> Seq<Seq<u8>> {
    files.map_values(|f: Vec<u8>| f@)
}

/// Appends the varint encoding of `n` to `out`.
pub fn push_varint(out: &mut Vec<u8>, n: u64)
    ensures
        final(out)@ == old(out)@ + varint(n as nat),
    decreases n,
{
    if n < 128 {
        out.push(n as u8);
        proof {
            assert(out@ =~= old(out)@ + varint(n as nat));
        }
    } else {
        let low: u8 = (n % 128 + 128) as u8;
        out.push(low);
        let ghost mid = out@;
        push_varint(out, n / 128);
        proof {
            assert(out@ =~= old(out)@ + varint(n as nat));
        }
    }
}

/// Encodes a file descriptor set around the encodings of its files.
pub fn encode_file_descriptor_set(files: &Vec<Vec<u8>>) -> (r: Vec<u8>)
    ensures
        r@ == set_bytes(views(files@)),
{
    let mut r: Vec<u8> = Vec::new();
    let mut i: usize = 0;
    proof {
        assert(views(files@.take(0)) =~= Seq::<Seq<u8>>::empty());
    }
    while i < files.len()
        invariant
            i <= files@.len(),
            r@ == set_bytes(views(files@.take(i as int))),
        decreases files@.len() - i,
    {
        let f = &files[i];
        r.push(0x0a);
        push_varint(&mut r, f.len() as u64);
        let mut k: usize = 0;
        let ghost before = r@;
        while k < f.len()
            invariant
                k <= f@.len(),
                r@ == before + f@.take(k as int),
            decreases f@.len() - k,
        {
            r.push(f[k]);
            proof {
                assert(f@.take(k + 1) =~= f@.take(k as int).push(f@[k as int]));
            }
            k += 1;
        }
        proof {
            let next = views(files@.take(i + 1));
            assert(next.drop_last() =~= views(files@.take(i as int)));
            assert(next.last() == f@);
            assert(f@.take(f@.len() as int) =~= f@);
        }
        i += 1;
    }
    proof {
        assert(files@.take(files@.len() as int) =~= files@);
    }
    r
}

/// The error for bytes a decoder could not read, with its message.
pub open spec fn is_decode_error(e: DescriptorError, message: Seq<char>) -> bool {
    &&& e.kinds().len() == 1
    &&& match e.kinds()[0] {
        DescriptorErrorKind::DecodeFileDescriptorSet { message: m } => m@ == message,
        _ => false,
    }
}

/// One error for bytes a decoder could not read.
fn decode_error(message: String) -> (r: DescriptorError)
    ensures
        is_decode_error(r, message@),
{
    let mut v: Vec<DescriptorErrorKind> = Vec::new();
    v.push(DescriptorErrorKind::DecodeFileDescriptorSet { message });
    DescriptorError::new(v)
}

impl DescriptorPool {
    /// A pool holding the files of a decoded file descriptor set, or, when
    /// the bytes could not be decoded, one error carrying the decoder's
    /// message.
    pub fn decode(decoded: Result<FileDescriptorSet, String>) -> (r: Result<DescriptorPool, DescriptorError>)
        requires
            decoded matches Ok(s) ==> batch_fits_new(s.file@),
        ensures
            match decoded {
                Ok(s) => set_pool_result(s.file@, r),
                Err(m) => r matches Err(e) && is_decode_error(e, m@),
            },
    {
        match decoded {
            Ok(s) => DescriptorPool::from_file_descriptor_set(s),
            Err(m) => Err(decode_error(m)),
        }
    }

    /// Adds a decoded file descriptor to the pool, or, when the bytes could
    /// not be decoded, leaves the pool as it is and gives one error carrying
    /// the decoder's message.
    pub fn decode_file_descriptor_proto(&mut self, decoded: Result<FileDescriptorProto, String>) -> (r: Result<
        (),
        DescriptorError,
    >)
        requires
            decoded matches Ok(f) ==> batch_fits(old(self)@, seq![f]),
        ensures
            match decoded {
                Ok(f) => add_outcome(old(self)@, final(self)@, seq![f], r),
                Err(m) => final(self)@ == old(self)@ && (r matches Err(e) && is_decode_error(e, m@)),
            },
    {
        match decoded {
            Ok(f) => self.add_file_descriptor_proto(f),
            Err(m) => Err(decode_error(m)),
        }
    }

    /// Adds the files of a decoded file descriptor set to the pool, or, when
    /// the bytes could not be decoded, leaves the pool as it is and gives one
    /// error carrying the decoder's message.
    pub fn decode_file_descriptor_set(&mut self, decoded: Result<FileDescriptorSet, String>) -> (r: Result<
        (),
        DescriptorError,
    >)
        requires
            decoded matches Ok(s) ==> batch_fits(old(self)@, s.file@),
        ensures
            match decoded {
                Ok(s) => add_outcome(old(self)@, final(self)@, s.file@, r),
                Err(m) => final(self)@ == old(self)@ && (r matches Err(e) && is_decode_error(e, m@)),
            },
    {
        match decoded {
            Ok(s) => self.add_file_descriptor_set(s),
            Err(m) => Err(decode_error(m)),
        }
    }
}

} // verus!

verus! {

/// The number the bytes of a varint stand for: the low seven bits of each
/// byte, the first byte the lowest.
pub open spec fn varint_value(bs: Seq<u8>) -> nat
    decreases bs.len(),
{
    if bs.len() == 0 {
        0
    } else {
        (bs[0] % 128) as nat + 128 * varint_value(bs.drop_first())
    }
}

/// Whether `bs` is one whole varint: every byte but the last has its high
/// bit set, and the last has it clear, so a reader stops exactly at its end.
pub open spec fn whole_varint(bs: Seq<u8>) -> bool {
    &&& bs.len() > 0
    &&& forall|i: int| 0 <= i < bs.len() - 1 ==> #[trigger] bs[i] >= 128
    &&& bs.last() < 128
}

/// The length prefix of a framed file reads back as the length: the varint
/// of `n` is one whole varint, its value is `n`, and it has no needless
/// trailing zero byte.
pub proof fn lemma_varint_reads_back(n: nat)
    ensures
        whole_varint(varint(n)),
        varint_value(varint(n)) == n,
        varint(n).len() == 1 || varint(n).last() > 0,
    decreases n,
{
    if n >= 128 {
        lemma_varint_reads_back(n / 128);
        let v = varint(n);
        let rest = varint(n / 128);
        assert(v == seq![(n % 128 + 128) as u8] + rest);
        assert(v.drop_first() =~= rest);
        assert(v[0] % 128 == n % 128);
        assert(n == n % 128 + 128 * (n / 128));
        assert forall|i: int| 0 <= i < v.len() - 1 implies #[trigger] v[i] >= 128 by {
            if i > 0 {
                assert(v[i] == rest[i - 1]);
            }
        }
        assert(v.last() == rest.last());
        assert(varint_value(v) == (v[0] % 128) as nat + 128 * varint_value(rest));
    } else {
        let v = varint(n);
        assert(v.drop_first() =~= Seq::<u8>::empty());
        assert(varint_value(v.drop_first()) == 0);
        assert(v[0] == n as u8);
        assert(varint_value(v) == (v[0] % 128) as nat + 128 * varint_value(v.drop_first()));
    }
}

} // verus!
