//! Caller and account identities.

use vstd::prelude::*;

verus! {

/// The longest identity, in bytes.
pub const MAX_LENGTH: usize = 29;

/// An identity: an opaque blob of at most [`MAX_LENGTH`] bytes, compared
/// for equality and nothing else.
#[derive(Clone, Copy, Debug, Eq, Hash)]
pub struct Principal {
    len: u8,
    bytes: [u8; 29],
}

impl View for Principal {
    type V = Seq<u8>;

    closed spec fn view(&self) -> Seq<u8> {
        self.bytes@.take(self.len as int)
    }
}

impl Principal {
    /// The stored length is in range and the unused tail is zero, so that
    /// two identities with the same bytes are the same value.
    #[verifier::type_invariant]
    pub closed spec fn canonical(self) -> bool {
        &&& self.len <= 29
        &&& forall|i: int| self.len <= i < 29 ==> self.bytes[i] == 0u8
    }

    /// The identity made of `bytes`, or `None` where there are too many.
    pub fn from_slice(bytes: &[u8]) -> (r: Option<Principal>)
        ensures
            r is Some <==> bytes@.len() <= MAX_LENGTH,
            r is Some ==> r.unwrap()@ == bytes@,
    {
        if bytes.len() > MAX_LENGTH {
            return None;
        }
        let mut buf: [u8; 29] = [0u8; 29];
        let mut i: usize = 0;
        while i < bytes.len()
            invariant
                i <= bytes@.len() <= 29,
                forall|j: int| 0 <= j < i ==> buf[j] == bytes@[j],
                forall|j: int| i <= j < 29 ==> buf[j] == 0u8,
            decreases bytes@.len() - i,
        {
            buf[i] = bytes[i];
            i += 1;
        }
        let p = Principal { len: bytes.len() as u8, bytes: buf };
        assert(p@ =~= bytes@);
        Some(p)
    }

    /// The bytes of this identity.
    pub fn to_vec(&self) -> (r: Vec<u8>)
        ensures
            r@ == self@,
    {
        proof {
            use_type_invariant(self);
        }
        let mut out: Vec<u8> = Vec::new();
        let mut i: usize = 0;
        while i < self.len as usize
            invariant
                i <= self.len <= 29,
                out@ == self.bytes@.take(i as int),
            decreases self.len - i,
        {
            out.push(self.bytes[i]);
            assert(self.bytes@.take(i + 1) =~= self.bytes@.take(i as int).push(self.bytes@[i as int]));
            i += 1;
        }
        out
    }

    /// Two identities with the same bytes are one value.
    pub proof fn lemma_view_injective(a: Principal, b: Principal)
        requires
            a.canonical(),
            b.canonical(),
            a@ == b@,
        ensures
            a == b,
    {
        assert(a.len == b.len) by {
            assert(a@.len() == a.len);
            assert(b@.len() == b.len);
        }
        assert forall|i: int| 0 <= i < 29 implies a.bytes[i] == b.bytes[i] by {
            if i < a.len {
                assert(a@[i] == a.bytes[i]);
                assert(b@[i] == b.bytes[i]);
            }
        }
        assert(a.bytes =~= b.bytes);
    }
}

impl PartialEq for Principal {
    fn eq(&self, other: &Principal) -> (r: bool) {
        if self.len != other.len {
            return false;
        }
        let mut i: usize = 0;
        while i < 29
            invariant
                i <= 29,
                self.len == other.len,
                forall|j: int| 0 <= j < i ==> self.bytes[j] == other.bytes[j],
            decreases 29 - i,
        {
            if self.bytes[i] != other.bytes[i] {
                return false;
            }
            i += 1;
        }
        assert(self.bytes =~= other.bytes);
        true
    }
}

impl vstd::std_specs::cmp::PartialEqSpecImpl for Principal {
    open spec fn obeys_eq_spec() -> bool {
        true
    }

    open spec fn eq_spec(&self, other: &Principal) -> bool {
        *self == *other
    }
}

} // verus!
