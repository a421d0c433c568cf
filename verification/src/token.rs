use vstd::prelude::*;
use vstd::string::StringSliceAdditionalSpecFns;

verus! {

/// A byte that may appear in a type-token name: an ASCII letter, an ASCII
/// digit, or an underscore.
pub open spec fn is_token_byte(b: u8) -> bool {
    (97 <= b && b <= 122) || (65 <= b && b <= 90) || (48 <= b && b <= 57) || b == 95
}

/// One generic type name, either drawn from the generator's vocabulary or
/// parsed back from a path segment. Its display text is the ASCII string
/// spelled by `name`.
pub struct TypeToken {
    pub name: Vec<u8>,
}

impl TypeToken {
    /// A well-formed token is a nonempty run of token bytes.
    pub open spec fn wf(&self) -> bool {
        &&& self.name@.len() >= 1
        &&& forall|i: int| 0 <= i < self.name@.len() ==> is_token_byte(#[trigger] self.name@[i])
    }

    /// Builds a token from text, accepting exactly the nonempty strings made
    /// of token bytes.
    pub fn new(text: &str) -> (r: Option<TypeToken>)
        ensures
            r is Some <==> (text.spec_bytes().len() >= 1 && forall|i: int|
                0 <= i < text.spec_bytes().len() ==> is_token_byte(#[trigger] text.spec_bytes()[i])),
            r matches Some(t) ==> t.wf() && t.name@ == text.spec_bytes(),
    {
        let bytes: &[u8] = text.as_bytes();
        if bytes.len() == 0 {
            return None;
        }
        let mut i: usize = 0;
        while i < bytes.len()
            invariant
                0 <= i <= bytes@.len(),
                bytes@ == text.spec_bytes(),
                forall|j: int| 0 <= j < i ==> is_token_byte(#[trigger] bytes@[j]),
            decreases bytes@.len() - i,
        {
            let b = bytes[i];
            if !((97 <= b && b <= 122) || (65 <= b && b <= 90) || (48 <= b && b <= 57) || b == 95)
            {
                return None;
            }
            i += 1;
        }
        let mut name: Vec<u8> = Vec::new();
        let mut k: usize = 0;
        while k < bytes.len()
            invariant
                0 <= k <= bytes@.len(),
                bytes@ == text.spec_bytes(),
                name@ == bytes@.subrange(0, k as int),
            decreases bytes@.len() - k,
        {
            name.push(bytes[k]);
            k += 1;
        }
        assert(name@ =~= text.spec_bytes());
        Some(TypeToken { name })
    }
}

} // verus!
