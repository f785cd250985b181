use crate::error::{RiffError, RiffResult};
use crate::text::str_from_utf8;
use vstd::prelude::*;
use vstd::string::StringSliceAdditionalSpecFns;
use vstd::utf8::valid_utf8;

verus! {

/// A four-byte tag that names a chunk or the type of a container.
#[derive(Debug, Clone, Copy, Eq, Hash)]
pub struct FourCC {
    data: [u8; 4],
}

impl PartialEq for FourCC {
    fn eq(&self, other: &FourCC) -> (r: bool) {
        let r = self.data[0] == other.data[0] && self.data[1] == other.data[1] && self.data[2]
            == other.data[2] && self.data[3] == other.data[3];
        assert(r <==> self.data@ =~= other.data@);
        r
    }
}

impl vstd::std_specs::cmp::PartialEqSpecImpl for FourCC {
    open spec fn obeys_eq_spec() -> bool {
        true
    }

    open spec fn eq_spec(&self, other: &FourCC) -> bool {
        self@ == other@
    }
}

impl View for FourCC {
    type V = Seq<u8>;

    closed spec fn view(&self) -> Seq<u8> {
        self.data@
    }
}

impl FourCC {
    /// Copies the tag out of `data`, which must hold exactly four bytes.
    pub fn new(data: &[u8]) -> (r: Option<FourCC>)
        ensures
            r is Some <==> data@.len() == 4,
            r is Some ==> r.unwrap()@ == data@,
    {
        if data.len() == 4 {
            let id = FourCC { data: [data[0], data[1], data[2], data[3]] };
            assert(id.data@ =~= data@);
            Some(id)
        } else {
            None
        }
    }

    /// The four bytes of the tag.
    pub fn as_bytes(&self) -> (r: &[u8; 4])
        ensures
            r@ == self@,
    {
        &self.data
    }

    /// The tag as text. Fails where the four bytes are not UTF-8.
    pub fn as_str(&self) -> (r: RiffResult<&str>)
        ensures
            match r {
                Ok(text) => valid_utf8(self@) && text.spec_bytes() == self@,
                Err(e) => !valid_utf8(self@) && e == RiffError::InvalidIdentifier,
            },
    {
        match str_from_utf8(self.data.as_slice()) {
            Some(text) => Ok(text),
            None => Err(RiffError::InvalidIdentifier),
        }
    }
}

} // verus!
