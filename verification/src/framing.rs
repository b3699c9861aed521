//! Finding the extent of a brace-delimited header at the front of a buffer,
//! and the traits that generated message types implement.

use vstd::prelude::*;

verus! {

/// The byte `{`.
pub const OPEN_BRACE: u8 = 0x7b;

/// The byte `}`.
pub const CLOSE_BRACE: u8 = 0x7d;

/// `n` is the length of the shortest prefix of `r` that opens with `{` and
/// ends with a later `}`.
pub open spec fn is_struct_end(r: Seq<u8>, n: int) -> bool {
    &&& 2 <= n <= r.len()
    &&& r[0] == OPEN_BRACE
    &&& r[n - 1] == CLOSE_BRACE
    &&& forall|i: int| 1 <= i < n - 1 ==> r[i] != CLOSE_BRACE
}

/// Whether `r` opens with `{` and holds a `}` somewhere after it.
pub open spec fn has_struct(r: Seq<u8>) -> bool {
    &&& r.len() >= 1
    &&& r[0] == OPEN_BRACE
    &&& exists|i: int| 1 <= i < r.len() && r[i] == CLOSE_BRACE
}

/// At most one length closes the leading struct.
pub proof fn lemma_struct_end_unique(r: Seq<u8>, n: int, m: int)
    requires
        is_struct_end(r, n),
        is_struct_end(r, m),
    ensures
        n == m,
{
    if n < m {
        assert(r[n - 1] != CLOSE_BRACE);
    } else if m < n {
        assert(r[m - 1] != CLOSE_BRACE);
    }
}

/// The number of bytes up to and including the first `}` that follows a
/// leading `{`; `None` when the buffer does not open with `{` or never
/// closes it.
pub fn find_struct_bounds(r: &[u8]) -> (res: Option<usize>)
    ensures
        res is Some <==> has_struct(r@),
        res matches Some(n) ==> is_struct_end(r@, n as int),
{
    if r.len() == 0 || r[0] != OPEN_BRACE {
        return None;
    }
    let mut count: usize = 1;
    while count < r.len()
        invariant
            1 <= count <= r.len(),
            r@[0] == OPEN_BRACE,
            forall|i: int| 1 <= i < count ==> r@[i] != CLOSE_BRACE,
        decreases r.len() - count,
    {
        let b: u8 = r[count];
        count = count + 1;
        if b == CLOSE_BRACE {
            return Some(count);
        }
    }
    None
}

/// A message body that can be written to and read back from a byte buffer.
pub trait ProtoMessage: Sized {
    /// Whether `buf` starts with an encoding of a value of this type.
    open spec fn decodable(buf: Seq<u8>) -> bool {
        arbitrary()
    }

    /// Writes the body into `buf`.
    fn serialize_body_into(&self, buf: &mut [u8]) -> Result<(), ()>;

    /// The number of bytes the body takes when written.
    fn serialized_size(&self) -> usize;

    /// Reads a body from the front of `buf`.
    fn try_deserialize_body(buf: &[u8]) -> (res: Option<Self>)
        ensures
            res is Some <==> Self::decodable(buf@),
            res matches Some(body) ==> body == Self::decoded(buf@),
    ;

    /// Reads a body from a buffer that is known to hold one.
    fn deserialize_body(buf: &[u8]) -> (body: Self)
        requires
            Self::decodable(buf@),
        ensures
            body == Self::decoded(buf@),
    {
        Self::try_deserialize_body(buf).unwrap()
    }

    /// The value whose encoding `buf` starts with, where there is one. Like
    /// `decodable`, it is left open by an implementation that does not say
    /// what it is.
    open spec fn decoded(buf: Seq<u8>) -> Self {
        arbitrary()
    }
}

/// The argument of a remote call, framed together with its message body.
pub trait ProtoRpcArg: Sized {
    type Arg: ProtoMessage;

    /// Writes the call's header and argument into `buf`.
    fn serialize_rpc_msg_into(&self, buf: &mut [u8]) -> Result<(), ()>;

    /// The number of bytes the framed call takes when written.
    fn serialized_size(&self) -> usize;

    /// Reads the argument's body from the front of `buf`.
    fn try_deserialize_body(buf: &[u8]) -> (res: Option<<Self as ProtoRpcArg>::Arg>)
        ensures
            res is Some <==> <Self::Arg as ProtoMessage>::decodable(buf@),
            res matches Some(body) ==> body == <Self::Arg as ProtoMessage>::decoded(buf@),
    {
        Self::Arg::try_deserialize_body(buf)
    }
}

} // verus!
