//! The ways in which decoding can fail.

use vstd::prelude::*;

verus! {

/// Why a decode call stopped. Every kind ends the call that met it; only the
/// tag stream treats `Truncated` as the end of the stream instead.
#[derive(Debug, Clone, Copy, PartialEq, Eq)]
pub enum Error {
    /// The first three bytes of the file are not "FLV".
    BadSignature,
    /// The element being read takes `needed` bytes and fewer are left.
    Truncated { needed: usize },
    /// A tag's type byte is none of 8, 9 and 18.
    UnknownTagType(u8),
    /// The sound format field holds 12 or 13.
    UnknownSoundFormat(u8),
    /// An AAC packet's type byte is neither 0 nor 1.
    UnknownAacPacketType(u8),
    /// A script value's type byte names no value type, or a script tag's
    /// name is not introduced by the string type byte.
    UnknownScriptValueType(u8),
    /// A string's bytes are not UTF-8.
    InvalidUtf8,
    /// A property list ends before its end marker.
    MissingObjectTerminator,
}

/// The error for an element of `needed` bytes that the input cannot supply.
pub open spec fn truncated(needed: nat) -> Error {
    Error::Truncated { needed: needed as usize }
}

/// A decoder's result with the rest of the input taken as a sequence.
pub open spec fn outcome<T>(r: Result<(&[u8], T), Error>) -> Result<(Seq<u8>, T), Error> {
    match r {
        Ok((rest, value)) => Ok((rest@, value)),
        Err(e) => Err(e),
    }
}

/// A decoder's result with the rest of the input and the value taken by
/// their views.
pub open spec fn outcome_view<T: View>(r: Result<(&[u8], T), Error>) -> Result<
    (Seq<u8>, T::V),
    Error,
> {
    match r {
        Ok((rest, value)) => Ok((rest@, value@)),
        Err(e) => Err(e),
    }
}

/// `head` put before the members that `tail` holds.
pub open spec fn prepend<T>(head: Seq<T>, tail: Result<(Seq<u8>, Seq<T>), Error>) -> Result<
    (Seq<u8>, Seq<T>),
    Error,
> {
    match tail {
        Ok((rest, more)) => Ok((rest, head + more)),
        Err(e) => Err(e),
    }
}

/// Nothing put before a list leaves it as it is.
pub proof fn lemma_prepend_empty<T>(tail: Result<(Seq<u8>, Seq<T>), Error>)
    ensures
        prepend(Seq::<T>::empty(), tail) == tail,
{
    if let Ok((rest, more)) = tail {
        assert(Seq::<T>::empty() + more =~= more);
    }
}

/// Putting a list before one member and what follows is putting the list
/// with that member before what follows.
pub proof fn lemma_prepend_push<T>(head: Seq<T>, item: T, tail: Result<(Seq<u8>, Seq<T>), Error>)
    ensures
        prepend(head, prepend(seq![item], tail)) == prepend(head.push(item), tail),
{
    if let Ok((rest, more)) = tail {
        assert(head + (seq![item] + more) =~= head.push(item) + more);
    }
}

/// A list put before an empty one is the list.
pub proof fn lemma_prepend_end<T>(head: Seq<T>, rest: Seq<u8>)
    ensures
        prepend(head, Ok((rest, Seq::<T>::empty()))) == Ok::<_, Error>((rest, head)),
{
    assert(head + Seq::<T>::empty() =~= head);
}

} // verus!
