//! Finite sources and their identities.

use vstd::prelude::*;
use vstd::slice::slice_subrange;
use vstd::std_specs::convert::FromSpecImpl;
use vstd::string::*;
use vstd::utf8::*;

use crate::digest;
use crate::error::{ErrorCode, ErrorView, IngestError};
use crate::history::InputIdentity;
use crate::limits::IngestLimits;
use crate::options;
use crate::options::IngestOptions;
use crate::text;

verus! {

/// A finite source selected by the caller.
#[derive(Clone, Debug, PartialEq, Eq)]
pub enum InputSpec {
    File(String),
    Stdin,
}

impl InputSpec {
    pub fn file(path: String) -> (spec: Self)
        ensures
            spec == InputSpec::File(path),
    {
        InputSpec::File(path)
    }

    pub fn stdin() -> (spec: Self)
        ensures
            spec == InputSpec::Stdin,
    {
        InputSpec::Stdin
    }

    /// Selects standard input for `-` and a file for every other text.
    pub fn parse(value: &str) -> (spec: Self)
        ensures
            value@ == "-"@ ==> spec == InputSpec::Stdin,
            value@ != "-"@ ==> (spec matches InputSpec::File(path) && path@ == value@),
    {
        if text::same_bytes(value.as_bytes(), "-".as_bytes()) {
            proof {
                text::string_bytes_determine_chars(value@, "-"@);
            }
            InputSpec::Stdin
        } else {
            InputSpec::File(value.to_owned())
        }
    }
}

impl From<String> for InputSpec {
    fn from(value: String) -> (spec: Self) {
        if text::same_bytes(value.as_str().as_bytes(), "-".as_bytes()) {
            proof {
                text::string_bytes_determine_chars(value@, "-"@);
            }
            InputSpec::Stdin
        } else {
            InputSpec::File(value)
        }
    }
}

impl FromSpecImpl<String> for InputSpec {
    open spec fn obeys_from_spec() -> bool {
        true
    }

    open spec fn from_spec(value: String) -> InputSpec {
        if value@ == "-"@ {
            InputSpec::Stdin
        } else {
            InputSpec::File(value)
        }
    }
}

/// Most bytes of a path that appear in an error.
pub const MAX_PATH_CONTEXT: usize = 256;

/// A place where a text may be cut.
pub open spec fn may_cut(bytes: Seq<u8>, at: int) -> bool {
    at == bytes.len() || !is_continuation_byte(bytes[at])
}

/// The largest place up to a position where a text may be cut.
pub open spec fn cut_before(bytes: Seq<u8>, at: int) -> int
    decreases at,
{
    if at <= 0 || may_cut(bytes, at) {
        at
    } else {
        cut_before(bytes, at - 1)
    }
}

/// As much of a path as fits into an error, cut between characters.
pub open spec fn path_context(path: Seq<u8>) -> Seq<u8> {
    if path.len() <= MAX_PATH_CONTEXT {
        path
    } else {
        path.take(cut_before(path, MAX_PATH_CONTEXT as int))
    }
}

/// Path contexts never exceed their bound and are a prefix of the path.
pub proof fn path_context_is_bounded(path: Seq<u8>)
    ensures
        path_context(path).len() <= MAX_PATH_CONTEXT,
        path_context(path).is_prefix_of(path),
{
    if path.len() > MAX_PATH_CONTEXT {
        cut_stays_below(path, MAX_PATH_CONTEXT as int);
    }
}

proof fn cut_stays_below(bytes: Seq<u8>, at: int)
    requires
        0 <= at <= bytes.len(),
    ensures
        0 <= cut_before(bytes, at) <= at,
        cut_before(bytes, at) == 0 || may_cut(bytes, cut_before(bytes, at)),
    decreases at,
{
    if at > 0 && !may_cut(bytes, at) {
        cut_stays_below(bytes, at - 1);
    }
}

/// The context that errors about a path carry.
pub fn input_path_context(path: &str) -> (context: String)
    ensures
        text::string_bytes(context) == path_context(path.spec_bytes()),
{
    let bytes = path.as_bytes();
    if bytes.len() <= MAX_PATH_CONTEXT {
        return path.to_owned();
    }
    let mut end: usize = MAX_PATH_CONTEXT;
    while end > 0 && 0x80 <= bytes[end] && bytes[end] <= 0xbf
        invariant
            end <= MAX_PATH_CONTEXT < bytes@.len(),
            cut_before(bytes@, MAX_PATH_CONTEXT as int) == cut_before(bytes@, end as int),
        decreases end,
    {
        end = end - 1;
    }
    let front = slice_subrange(bytes, 0, end);
    proof {
        encode_utf8_valid_utf8(path@);
        assert(front@ =~= bytes@.take(end as int));
        if end == 0 {
            first_byte_starts_a_character(bytes@);
        } else {
            text::valid_utf8_between_boundaries(bytes@, 0, end as int);
        }
    }
    match text::string_from_bytes(front) {
        Some(context) => context,
        None => {
            assert(false);
            String::new()
        },
    }
}

proof fn first_byte_starts_a_character(bytes: Seq<u8>)
    requires
        valid_utf8(bytes),
        bytes.len() > 0,
    ensures
        valid_utf8(bytes.subrange(0, 0)),
{
    assert(bytes.subrange(0, 0) =~= Seq::<u8>::empty());
}

/// Bytes that are hashed at a time.
pub const HASH_BUFFER_BYTES: usize = 65536;

/// Hashes a finite source chunk by chunk within the input limit.
pub struct InputHash {
    hasher: blake3::Hasher,
    bytes: u64,
    maximum: u64,
    taken: Ghost<Seq<u8>>,
}

/// A source that goes on after the input limit.
pub open spec fn beyond_limit(bytes: u64, context: Seq<char>) -> ErrorView {
    ErrorView {
        code: ErrorCode::InputTooLarge,
        line: 0,
        byte_offset: bytes,
        context,
        message: "finite source exceeds configured byte limit"@,
    }
}

impl InputHash {
    /// The bytes hashed so far.
    pub closed spec fn taken(&self) -> Seq<u8> {
        self.taken@
    }

    pub closed spec fn limit(&self) -> u64 {
        self.maximum
    }

    pub closed spec fn wf(&self) -> bool {
        &&& self.bytes == self.taken@.len()
        &&& self.bytes <= self.maximum
        &&& digest::hashed_bytes(self.hasher) == self.taken@
    }

    /// Starts hashing under limits.
    pub fn new(limits: &IngestLimits) -> (result: Result<Self, IngestError>)
        ensures
            match result {
                Ok(hash) => limits.usable() && hash.wf() && hash.taken() == Seq::<u8>::empty()
                    && hash.limit() == limits.max_input_bytes,
                Err(e) => !limits.usable() && e@ == limits.zero_bound(),
            },
    {
        match limits.validate() {
            Ok(()) => {},
            Err(e) => return Err(e),
        }
        Ok(
            InputHash {
                hasher: digest::hasher_new(),
                bytes: 0,
                maximum: limits.max_input_bytes,
                taken: Ghost(Seq::empty()),
            },
        )
    }

    /// Bytes hashed so far.
    pub fn bytes(&self) -> (bytes: u64)
        requires
            self.wf(),
        ensures
            bytes == self.taken().len(),
    {
        self.bytes
    }

    /// How many bytes to ask the source for: at the limit one byte is probed,
    /// so that a longer source is noticed.
    pub fn request(&self) -> (size: usize)
        requires
            self.wf(),
        ensures
            size == if self.taken().len() == self.limit() {
                1int
            } else if self.limit() - self.taken().len() < HASH_BUFFER_BYTES {
                self.limit() - self.taken().len()
            } else {
                HASH_BUFFER_BYTES as int
            },
    {
        let remaining: u64 = self.maximum - self.bytes;
        if remaining == 0 {
            1
        } else if remaining < HASH_BUFFER_BYTES as u64 {
            remaining as usize
        } else {
            HASH_BUFFER_BYTES
        }
    }

    /// Takes what the source gave.  Gives whether the source has ended.
    pub fn take(&mut self, read: &[u8], context: &str) -> (result: Result<bool, IngestError>)
        requires
            old(self).wf(),
        ensures
            final(self).limit() == old(self).limit(),
            match result {
                Ok(ended) => {
                    &&& ended == (read@.len() == 0)
                    &&& old(self).taken().len() + read@.len() <= old(self).limit()
                    &&& final(self).wf()
                    &&& final(self).taken() == old(self).taken() + read@
                },
                Err(e) => old(self).taken().len() + read@.len() > old(self).limit() && e@
                    == beyond_limit(old(self).taken().len() as u64, context@),
            },
    {
        if read.len() == 0 {
            assert(self.taken@ + read@ =~= self.taken@);
            return Ok(true);
        }
        if read.len() as u64 > self.maximum - self.bytes {
            return Err(
                IngestError::new(
                    ErrorCode::InputTooLarge,
                    0,
                    self.bytes,
                    context.to_owned(),
                    "finite source exceeds configured byte limit".to_owned(),
                ),
            );
        }
        let ghost before = self.taken@;
        digest::hasher_update(&mut self.hasher, read);
        self.bytes = self.bytes + read.len() as u64;
        self.taken = Ghost(before + read@);
        Ok(false)
    }

    /// The identity of everything that was hashed.
    pub fn finish(&self) -> (identity: InputIdentity)
        requires
            self.wf(),
        ensures
            identity.digest_view() == digest::blake3_digest(self.taken()),
            identity.length() == self.taken().len(),
    {
        InputIdentity::from_parts(digest::hasher_finalize(&self.hasher), self.bytes)
    }
}

/// The identity of a source that is wholly in memory.
pub fn input_identity_bytes(source: &[u8], context: &str, options: &IngestOptions) -> (result:
    Result<InputIdentity, IngestError>)
    ensures
        match result {
            Ok(identity) => {
                &&& options.limits.usable()
                &&& source@.len() <= options.limits.max_input_bytes
                &&& identity.digest_view() == digest::blake3_digest(source@)
                &&& identity.length() == source@.len()
            },
            Err(e) => {
                ||| options::may_cancel(*options, e@)
                ||| !options.limits.usable() && e@ == options.limits.zero_bound()
                ||| options.limits.usable() && source@.len() > options.limits.max_input_bytes && e@
                    == beyond_limit(options.limits.max_input_bytes, context@)
            },
        },
{
    let mut hash = match InputHash::new(&options.limits) {
        Ok(hash) => hash,
        Err(e) => return Err(e),
    };
    let mut position: usize = 0;
    assert(source@.take(0) =~= Seq::<u8>::empty());
    loop
        invariant_except_break
            options.limits.usable(),
            hash.wf(),
            hash.limit() == options.limits.max_input_bytes,
            position <= source@.len(),
            hash.taken() == source@.take(position as int),
        ensures
            options.limits.usable(),
            hash.wf(),
            hash.taken() == source@,
            source@.len() <= options.limits.max_input_bytes,
        decreases source@.len() - position,
    {
        match options.check_cancelled(0, hash.bytes()) {
            Ok(()) => {},
            Err(e) => return Err(e),
        }
        let wanted: usize = hash.request();
        let given: usize = if source.len() - position < wanted {
            source.len() - position
        } else {
            wanted
        };
        let chunk = slice_subrange(source, position, position + given);
        match hash.take(chunk, context) {
            Ok(true) => {
                assert(source@.take(position as int) =~= source@);
                assert(hash.taken() =~= source@);
                break;
            },
            Ok(false) => {
                assert(source@.take(position as int) + chunk@ =~= source@.take(position + given));
                position = position + given;
            },
            Err(e) => return Err(e),
        }
    }
    Ok(hash.finish())
}

} // verus!
