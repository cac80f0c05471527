//! The byte pattern searched for, and what it means for a byte sequence to
//! contain it.
use vstd::prelude::*;

verus! {

/// `pat` occurs in `data` starting at index `i`.
pub open spec fn occurs_at(data: Seq<u8>, pat: Seq<u8>, i: int) -> bool {
    0 <= i && i + pat.len() <= data.len() && data.subrange(i, i + pat.len()) == pat
}

/// `pat` occurs somewhere in `data`.
pub open spec fn contains_pattern(data: Seq<u8>, pat: Seq<u8>) -> bool {
    exists|i: int| occurs_at(data, pat, i)
}

/// Why the command line could not be turned into a scan request.
#[derive(Debug, Clone, Copy, PartialEq, Eq, Structural)]
pub enum UsageError {
    /// Not exactly a root path and a pattern were given; holds the number of
    /// arguments after the program name.
    WrongArgCount(usize),
    /// The pattern argument is not valid UTF-8.
    NonUtf8Pattern,
    /// The pattern is empty.
    EmptyPattern,
    /// The pattern is too long for a scan buffer to hold it and one more byte.
    PatternTooLong,
}

/// An immutable, non-empty byte pattern, shared read-only by every scan.
pub struct Pattern {
    bytes: Vec<u8>,
}

impl View for Pattern {
    type V = Seq<u8>;

    closed spec fn view(&self) -> Seq<u8> {
        self.bytes@
    }
}

impl Pattern {
    #[verifier::type_invariant]
    spec fn inv(self) -> bool {
        0 < self.bytes@.len() < usize::MAX
    }

    /// Makes a pattern of the given bytes; the empty sequence is refused.
    pub fn new(bytes: Vec<u8>) -> (r: Result<Pattern, UsageError>)
        ensures
            bytes@.len() == 0 <==> r == Err::<Pattern, UsageError>(UsageError::EmptyPattern),
            bytes@.len() == usize::MAX <==> r == Err::<Pattern, UsageError>(
                UsageError::PatternTooLong,
            ),
            bytes@.len() != 0 && bytes@.len() != usize::MAX ==> (r matches Ok(p) && p@ == bytes@),
    {
        if bytes.len() == 0 {
            Err(UsageError::EmptyPattern)
        } else if bytes.len() == usize::MAX {
            Err(UsageError::PatternTooLong)
        } else {
            Ok(Pattern { bytes })
        }
    }

    /// The pattern's bytes.
    pub fn as_bytes(&self) -> (r: &[u8])
        ensures
            r@ == self@,
    {
        self.bytes.as_slice()
    }

    /// The pattern's length in bytes.
    pub fn len(&self) -> (r: usize)
        ensures
            r == self@.len(),
            0 < r < usize::MAX,
    {
        proof {
            use_type_invariant(self);
        }
        self.bytes.len()
    }
}

/// Checks a command line: `arg_count` counts the arguments after the program
/// name (a root path and a pattern are expected), and `pattern` holds the
/// pattern argument's bytes, or `None` where it is not valid UTF-8.
pub fn parse_args(arg_count: usize, pattern: Option<Vec<u8>>) -> (r: Result<Pattern, UsageError>)
    ensures
        arg_count != 2 ==> r == Err::<Pattern, UsageError>(UsageError::WrongArgCount(arg_count)),
        arg_count == 2 ==> match pattern {
            Option::None => r == Err::<Pattern, UsageError>(UsageError::NonUtf8Pattern),
            Option::Some(b) => if b@.len() == 0 {
                r == Err::<Pattern, UsageError>(UsageError::EmptyPattern)
            } else if b@.len() == usize::MAX {
                r == Err::<Pattern, UsageError>(UsageError::PatternTooLong)
            } else {
                (r matches Ok(p) && p@ == b@)
            },
        },
{
    if arg_count != 2 {
        return Err(UsageError::WrongArgCount(arg_count));
    }
    match pattern {
        Some(b) => Pattern::new(b),
        None => Err(UsageError::NonUtf8Pattern),
    }
}

} // verus!
