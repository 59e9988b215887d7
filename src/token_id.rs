//! ESDT token identifiers: an upper-case alphanumeric ticker of 3 to 10
//! characters, a dash, and 6 lower-case alphanumeric characters.
use vstd::prelude::*;

verus! {

/// Length of the random suffix that follows the dash.
pub const RANDOM_CHARS_LEN: usize = 6;

/// Shortest accepted ticker.
pub const TICKER_MIN_LEN: usize = 3;

/// Longest accepted ticker.
pub const TICKER_MAX_LEN: usize = 10;

pub open spec fn is_upper_alnum(c: u8) -> bool {
    (0x41 <= c <= 0x5a) || (0x30 <= c <= 0x39)
}

pub open spec fn is_lower_alnum(c: u8) -> bool {
    (0x61 <= c <= 0x7a) || (0x30 <= c <= 0x39)
}

/// The well-formedness rule of an ESDT identifier, over its bytes.
pub open spec fn valid_esdt_identifier(s: Seq<u8>) -> bool {
    let n = s.len() as int;
    let ticker_len = n - RANDOM_CHARS_LEN - 1;
    &&& TICKER_MIN_LEN <= ticker_len <= TICKER_MAX_LEN
    &&& forall|i: int| 0 <= i < ticker_len ==> is_upper_alnum(#[trigger] s[i])
    &&& s[ticker_len] == 0x2d
    &&& forall|i: int| ticker_len < i < n ==> is_lower_alnum(#[trigger] s[i])
}

/// Identifier of a token kind, as the bytes of its name.
#[derive(Clone, Debug, PartialEq, Eq)]
pub struct TokenId {
    pub bytes: Vec<u8>,
}

impl View for TokenId {
    type V = Seq<u8>;

    open spec fn view(&self) -> Seq<u8> {
        self.bytes@
    }
}

/// Checks that `bytes` form a well-formed ESDT identifier.
pub fn validate_token_identifier(bytes: &[u8]) -> (r: bool)
    ensures
        r == valid_esdt_identifier(bytes@),
{
    let n = bytes.len();
    if n < TICKER_MIN_LEN + RANDOM_CHARS_LEN + 1 || n > TICKER_MAX_LEN + RANDOM_CHARS_LEN + 1 {
        return false;
    }
    let ticker_len: usize = n - RANDOM_CHARS_LEN - 1;
    let mut i: usize = 0;
    while i < ticker_len
        invariant
            ticker_len == bytes@.len() - RANDOM_CHARS_LEN - 1,
            i <= ticker_len,
            forall|k: int| 0 <= k < i ==> is_upper_alnum(#[trigger] bytes@[k]),
        decreases ticker_len - i,
    {
        let c = bytes[i];
        if !((0x41 <= c && c <= 0x5a) || (0x30 <= c && c <= 0x39)) {
            return false;
        }
        i = i + 1;
    }
    if bytes[ticker_len] != 0x2d {
        assert(bytes@[ticker_len as int] != 0x2d);
        return false;
    }
    let mut j: usize = ticker_len + 1;
    while j < n
        invariant
            n == bytes@.len(),
            ticker_len == n - RANDOM_CHARS_LEN - 1,
            TICKER_MIN_LEN <= ticker_len <= TICKER_MAX_LEN,
            bytes@[ticker_len as int] == 0x2d,
            forall|k: int| 0 <= k < ticker_len ==> is_upper_alnum(#[trigger] bytes@[k]),
            ticker_len + 1 <= j <= n,
            forall|k: int| ticker_len < k < j ==> is_lower_alnum(#[trigger] bytes@[k]),
        decreases n - j,
    {
        let c = bytes[j];
        if !((0x61 <= c && c <= 0x7a) || (0x30 <= c && c <= 0x39)) {
            assert(!is_lower_alnum(bytes@[j as int]));
            return false;
        }
        j = j + 1;
    }
    true
}

impl TokenId {
    /// Whether this identifier is well-formed.
    pub fn is_valid_esdt_identifier(&self) -> (r: bool)
        ensures
            r == valid_esdt_identifier(self@),
    {
        validate_token_identifier(self.bytes.as_slice())
    }
}

} // verus!
