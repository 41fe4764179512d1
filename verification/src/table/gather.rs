//! Decoding from a buffer that arrives in segments: a message whose bytes lie
//! in the first segment is read in place, and one that spans segments is
//! gathered into one contiguous buffer first. A single field is read only
//! where everything left lies in one segment.
use vstd::prelude::*;
use bytes::Bytes;
use crate::encode_sink::{bytes_view, RopeBuf};
use crate::error::DecodeError;
use super::decode::{
    field_views, merge_message, spec_merge_field, spec_merge_message, spec_merge_state,
};
use super::message::{Table, NO_UNKNOWN};
use super::write::{FieldData, FieldDataView};

verus! {

/// The length of the first of `segments`, or 0 if there is none.
pub open spec fn front_len(segments: Seq<Bytes>) -> nat {
    if segments.len() > 0 {
        bytes_view(segments[0]).len()
    } else {
        0
    }
}

/// The number of bytes a read that leaves `limit` bytes takes from `len`.
pub open spec fn to_limit(len: nat, limit: usize) -> nat {
    if len > limit {
        (len - limit) as nat
    } else {
        0
    }
}

/// Take the first `n` bytes out of `buf`, segment by segment.
fn gather(buf: &mut RopeBuf, n: usize) -> (r: Vec<u8>)
    requires
        old(buf).wf(),
        n <= old(buf)@.len(),
    ensures
        final(buf).wf(),
        r@ == old(buf)@.subrange(0, n as int),
        final(buf)@ == old(buf)@.subrange(n as int, old(buf)@.len() as int),
{
    let mut out: Vec<u8> = Vec::new();
    while out.len() < n
        invariant
            buf.wf(),
            out@.len() <= n <= old(buf)@.len(),
            out@ == old(buf)@.subrange(0, out@.len() as int),
            buf@ == old(buf)@.subrange(out@.len() as int, old(buf)@.len() as int),
        decreases n - out@.len(),
    {
        let chunk = buf.chunk();
        let want: usize = n - out.len();
        let take: usize = if chunk.len() < want {
            chunk.len()
        } else {
            want
        };
        let part = vstd::slice::slice_subrange(chunk, 0, take);
        out.extend_from_slice(part);
        assert(out@ =~= old(buf)@.subrange(0, out@.len() as int));
        buf.advance(take);
        assert(buf@ =~= old(buf)@.subrange(out@.len() as int, old(buf)@.len() as int));
    }
    out
}

impl<M> Table<M> {
    /// Read `M`'s fields from `buf` until `limit` bytes are left (all of it
    /// if it holds fewer), into `fields`, one per entry, and `unknown`, with
    /// `depth` levels of nesting left: the same as
    /// [`Table::merge_to_limit`] on those bytes, in however many segments
    /// they arrive. On success the bytes read are consumed. On an error
    /// they are consumed where they had to be gathered from more than one
    /// segment, and left in `buf` otherwise; the fields read before the one
    /// that failed stay read, and the one that failed changes nothing.
    pub fn merge_buf_to_limit(
        &self,
        fields: &mut Vec<FieldData>,
        unknown: &mut Vec<u8>,
        buf: &mut RopeBuf,
        limit: usize,
        depth: u32,
    ) -> (r: Result<(), DecodeError>)
        requires
            old(fields)@.len() == self.spec_raw().spec_entries().len(),
            old(buf).wf(),
        ensures
            final(fields)@.len() == old(fields)@.len(),
            final(buf).wf(),
            ({
                let n = to_limit(old(buf)@.len(), limit);
                let s = old(buf)@.subrange(0, n as int);
                let rest = old(buf)@.subrange(n as int, old(buf)@.len() as int);
                match r {
                    Ok(()) => spec_merge_message(
                        self.spec_raw().spec_entries(),
                        self.spec_raw().spec_aux(),
                        self.spec_raw().spec_unknown() != NO_UNKNOWN,
                        field_views(old(fields)@),
                        old(unknown)@,
                        s,
                        depth as nat,
                    ) == Ok::<(Seq<FieldDataView>, Seq<u8>), DecodeError>(
                        (field_views(final(fields)@), final(unknown)@),
                    ) && final(buf)@ == rest,
                    Err(err) => spec_merge_message(
                        self.spec_raw().spec_entries(),
                        self.spec_raw().spec_aux(),
                        self.spec_raw().spec_unknown() != NO_UNKNOWN,
                        field_views(old(fields)@),
                        old(unknown)@,
                        s,
                        depth as nat,
                    ) == Err::<(Seq<FieldDataView>, Seq<u8>), DecodeError>(err) && (
                        field_views(final(fields)@),
                        final(unknown)@,
                    ) == spec_merge_state(
                        self.spec_raw().spec_entries(),
                        self.spec_raw().spec_aux(),
                        self.spec_raw().spec_unknown() != NO_UNKNOWN,
                        field_views(old(fields)@),
                        old(unknown)@,
                        s,
                        0,
                        depth as nat,
                    ) && final(buf)@ == if front_len(old(buf).unconsumed()) >= n {
                        old(buf)@
                    } else {
                        rest
                    },
                }
            }),
    {
        let remaining = buf.remaining();
        let n: usize = if remaining > limit {
            remaining - limit
        } else {
            0
        };
        let chunk = buf.chunk();
        if chunk.len() >= n {
            let payload = vstd::slice::slice_subrange(chunk, 0, n);
            proof {
                if old(buf)@.len() == 0 {
                    assert(payload@ =~= old(buf)@.subrange(0, n as int));
                } else {
                    assert(payload@ =~= old(buf)@.subrange(0, n as int));
                }
            }
            match merge_message(self.raw(), fields, unknown, payload, depth) {
                Ok(()) => {
                    buf.advance(n);
                    Ok(())
                },
                Err(err) => Err(err),
            }
        } else {
            let gathered = gather(buf, n);
            merge_message(self.raw(), fields, unknown, gathered.as_slice(), depth)
        }
    }

    /// Read one field of `M`, numbered `number`, whose tag with wire type
    /// `wire` has been read off `buf`, into `fields` and `unknown`: the same
    /// as [`Table::merge_field`] where everything left in `buf` lies in its
    /// first segment, and consuming the field's bytes. Where the bytes left
    /// span segments it is [`DecodeError::UnexpectedEof`]. A field that
    /// fails changes nothing and consumes nothing.
    pub fn merge_buf_field(
        &self,
        fields: &mut Vec<FieldData>,
        unknown: &mut Vec<u8>,
        number: u32,
        wire: u32,
        buf: &mut RopeBuf,
        depth: u32,
    ) -> (r: Result<(), DecodeError>)
        requires
            old(fields)@.len() == self.spec_raw().spec_entries().len(),
            old(buf).wf(),
            wire <= 5,
        ensures
            final(fields)@.len() == old(fields)@.len(),
            final(buf).wf(),
            front_len(old(buf).unconsumed()) < old(buf)@.len() ==> r == Err::<(), DecodeError>(
                DecodeError::UnexpectedEof,
            ),
            match r {
                Ok(()) => front_len(old(buf).unconsumed()) == old(buf)@.len() && spec_merge_field(
                    self.spec_raw().spec_entries(),
                    self.spec_raw().spec_aux(),
                    self.spec_raw().spec_unknown() != NO_UNKNOWN,
                    field_views(old(fields)@),
                    old(unknown)@,
                    number,
                    wire,
                    old(buf)@,
                    0,
                    depth as nat,
                ) == Ok::<(Seq<FieldDataView>, Seq<u8>, int), DecodeError>(
                    (
                        field_views(final(fields)@),
                        final(unknown)@,
                        old(buf)@.len() - final(buf)@.len(),
                    ),
                ) && final(buf)@ == old(buf)@.subrange(
                    old(buf)@.len() - final(buf)@.len(),
                    old(buf)@.len() as int,
                ),
                Err(err) => field_views(final(fields)@) == field_views(old(fields)@)
                    && final(unknown)@ == old(unknown)@ && final(buf)@ == old(buf)@ && (front_len(
                    old(buf).unconsumed(),
                ) == old(buf)@.len() ==> spec_merge_field(
                    self.spec_raw().spec_entries(),
                    self.spec_raw().spec_aux(),
                    self.spec_raw().spec_unknown() != NO_UNKNOWN,
                    field_views(old(fields)@),
                    old(unknown)@,
                    number,
                    wire,
                    old(buf)@,
                    0,
                    depth as nat,
                ) == Err::<(Seq<FieldDataView>, Seq<u8>, int), DecodeError>(err)),
            },
    {
        let remaining = buf.remaining();
        let chunk = buf.chunk();
        if chunk.len() < remaining {
            return Err(DecodeError::UnexpectedEof);
        }
        proof {
            if old(buf)@.len() > 0 {
                assert(chunk@ =~= old(buf)@);
            } else {
                assert(chunk@ =~= old(buf)@);
            }
        }
        let next = match self.merge_field(fields, unknown, number, wire, chunk, 0, depth) {
            Ok(next) => next,
            Err(err) => {
                return Err(err);
            },
        };
        buf.advance(next);
        Ok(())
    }
}

} // verus!
