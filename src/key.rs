use vstd::prelude::*;

verus! {

/// The longest idempotency key accepted, in characters.
pub const MAX_KEY_LEN: usize = 50;

/// Why a raw idempotency key was refused.
#[derive(Debug, Clone, Copy, PartialEq, Eq, Structural)]
pub enum KeyError {
    Empty,
    TooLong,
}

/// A key is valid when it is non-empty and at most `MAX_KEY_LEN` characters long.
pub open spec fn valid_key(s: Seq<char>) -> bool {
    0 < s.len() <= MAX_KEY_LEN
}

/// A caller-supplied deduplication token, validated once on entry.
#[derive(Debug)]
pub struct IdempotencyKey {
    key: String,
}

impl View for IdempotencyKey {
    type V = Seq<char>;

    closed spec fn view(&self) -> Seq<char> {
        self.key@
    }
}

impl IdempotencyKey {
    #[verifier::type_invariant]
    closed spec fn inv(self) -> bool {
        valid_key(self.key@)
    }

    /// Validates `raw`: it must be non-empty and hold at most `MAX_KEY_LEN` characters.
    pub fn parse(raw: String) -> (r: Result<IdempotencyKey, KeyError>)
        ensures
            r is Ok <==> valid_key(raw@),
            r matches Ok(k) ==> k@ == raw@,
            r == Err::<IdempotencyKey, KeyError>(KeyError::Empty) <==> raw@.len() == 0,
            r == Err::<IdempotencyKey, KeyError>(KeyError::TooLong) <==> raw@.len() > MAX_KEY_LEN,
    {
        let n = raw.as_str().unicode_len();
        if n == 0 {
            Err(KeyError::Empty)
        } else if n > MAX_KEY_LEN {
            Err(KeyError::TooLong)
        } else {
            Ok(IdempotencyKey { key: raw })
        }
    }

    /// The key's text, which is always a valid key.
    pub fn as_str(&self) -> (r: &str)
        ensures
            r@ == self@,
            valid_key(r@),
    {
        proof {
            use_type_invariant(self);
        }
        self.key.as_str()
    }
}

impl Clone for IdempotencyKey {
    fn clone(&self) -> (r: Self)
        ensures
            r@ == self@,
    {
        proof {
            use_type_invariant(self);
        }
        IdempotencyKey { key: self.key.clone() }
    }
}

impl PartialEq for IdempotencyKey {
    fn eq(&self, other: &IdempotencyKey) -> (r: bool) {
        self.key == other.key
    }
}

impl vstd::std_specs::cmp::PartialEqSpecImpl for IdempotencyKey {
    open spec fn obeys_eq_spec() -> bool {
        true
    }

    open spec fn eq_spec(&self, other: &IdempotencyKey) -> bool {
        self@ == other@
    }
}

} // verus!
