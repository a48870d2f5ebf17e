use vstd::prelude::*;

use crate::status::{nt_err, NtError, STATUS_OBJECT_NAME_NOT_FOUND};

verus! {

/// The object path of a registry key, as the configuration manager reports it for
/// a key object (`CmCallbackGetKeyObjectIDEx`).
///
/// Holds no path when the configuration manager gave none. The path is handed back
/// to the configuration manager (`CmCallbackReleaseKeyObjectIDEx`) when the holder
/// is dropped, unless it was leaked with [`CmKeyObjectPath::leak`].
pub struct CmKeyObjectPath(pub Option<Vec<u16>>);

/// The view of a path as the configuration manager reported it.
pub open spec fn path_view(path: Option<Vec<u16>>) -> Option<Seq<u16>> {
    match path {
        Some(p) => Some(p@),
        None => None,
    }
}

impl View for CmKeyObjectPath {
    type V = Option<Seq<u16>>;

    open spec fn view(&self) -> Option<Seq<u16>> {
        path_view(self.0)
    }
}

impl From<Option<Vec<u16>>> for CmKeyObjectPath {
    fn from(path: Option<Vec<u16>>) -> (r: Self) {
        CmKeyObjectPath(path)
    }
}

impl vstd::std_specs::convert::FromSpecImpl<Option<Vec<u16>>> for CmKeyObjectPath {
    open spec fn obeys_from_spec() -> bool {
        true
    }

    open spec fn from_spec(path: Option<Vec<u16>>) -> CmKeyObjectPath {
        CmKeyObjectPath(path)
    }
}

impl CmKeyObjectPath {
    /// The key object path: `Err(STATUS_OBJECT_NAME_NOT_FOUND)` when the
    /// configuration manager gave none.
    pub fn path(&self) -> (r: Result<&[u16], NtError>)
        ensures
            match self@ {
                Some(p) => r matches Ok(s) && s@ == p,
                None => r == nt_err::<&[u16]>(STATUS_OBJECT_NAME_NOT_FOUND),
            },
    {
        match &self.0 {
            Some(p) => Ok(p.as_slice()),
            None => Err(NtError::from_ntstatus(STATUS_OBJECT_NAME_NOT_FOUND)),
        }
    }

    /// Give up the key object path without releasing it, and return it; whoever
    /// takes it is then to release it.
    pub fn leak(self) -> (r: Option<Vec<u16>>)
        ensures
            path_view(r) == self@,
    {
        self.0
    }
}

} // verus!
