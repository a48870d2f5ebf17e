use vstd::prelude::*;

use crate::status::{
    NtError, STATUS_BUFFER_OVERFLOW, STATUS_BUFFER_TOO_SMALL, STATUS_INTEGER_OVERFLOW,
    STATUS_NO_MORE_ENTRIES, STATUS_SUCCESS,
};

verus! {

/// The number of UTF-16 code units of a name that a key enumeration structure
/// (`KEY_BASIC_INFORMATION`, `KEY_VALUE_BASIC_INFORMATION`) describes by its
/// `NameLength` in bytes, which is narrowed to the 16 bits of a `UNICODE_STRING` length.
pub fn name_units(name_length: u32) -> (n: usize)
    ensures
        n == (name_length % 0x10000) / 2,
{
    let bytes: u16 = (name_length & 0xFFFF) as u16;
    assert((name_length & 0xFFFF) == name_length % 0x10000) by (bit_vector);
    (bytes / 2) as usize
}

/// What a query of the name at one index of a key enumeration (`ZwEnumerateKey`,
/// `ZwEnumerateValueKey`) gives, from the status it returned: no name past the last
/// entry (`STATUS_NO_MORE_ENTRIES`), the name when it succeeded, and the status as an
/// error otherwise. `name` is what the buffer holds, read only on success.
pub fn enumerated_name(status: i32, name: Option<Vec<u16>>) -> (r: Result<Option<Vec<u16>>, NtError>)
    requires
        status == STATUS_SUCCESS ==> name is Some,
    ensures
        status == STATUS_NO_MORE_ENTRIES ==> r matches Ok(None),
        status == STATUS_SUCCESS ==> r == Ok::<Option<Vec<u16>>, NtError>(name),
        status != STATUS_NO_MORE_ENTRIES && status != STATUS_SUCCESS ==> r == Err::<
            Option<Vec<u16>>,
            NtError,
        >(NtError { status }),
{
    if status == STATUS_NO_MORE_ENTRIES {
        return Ok(None);
    }
    if status != STATUS_SUCCESS {
        return Err(NtError::from_ntstatus(status));
    }
    Ok(name)
}

/// The next thing an enumeration of key names asks of the system.
#[derive(Debug, Clone, Copy, PartialEq, Eq, Structural)]
pub enum EnumStep {
    /// Query the name at this index.
    Query { index: u32 },
    /// Reserve room for `additional` more bytes in the buffer, then query the same index again.
    GrowBuffer { additional: usize },
    /// The enumeration has gone past its last entry.
    Done,
    /// The enumeration fails with this error.
    Failed(NtError),
}

/// An enumeration of the names under a registry key (its subkeys or its values), one
/// index at a time: the names collected so far and the index queried next.
pub struct NameEnumeration {
    names: Vec<Vec<u16>>,
    index: u32,
}

/// The names of a sequence of names.
pub open spec fn names_view(names: Seq<Vec<u16>>) -> Seq<Seq<u16>> {
    names.map_values(|n: Vec<u16>| n@)
}

impl View for NameEnumeration {
    type V = (Seq<Seq<u16>>, u32);

    closed spec fn view(&self) -> (Seq<Seq<u16>>, u32) {
        (names_view(self.names@), self.index)
    }
}

impl NameEnumeration {
    /// An enumeration that has collected nothing and queries index 0 first.
    pub fn new() -> (e: Self)
        ensures
            e@ == (Seq::<Seq<u16>>::empty(), 0u32),
    {
        let e = NameEnumeration { names: Vec::new(), index: 0 };
        assert(names_view(e.names@) =~= Seq::<Seq<u16>>::empty());
        e
    }

    /// The index to query next.
    pub fn index(&self) -> (i: u32)
        ensures
            i == self@.1,
    {
        self.index
    }

    /// Take in what the query of the name at the current index gave (see
    /// [`enumerated_name`]), with `result_len`, the buffer size the system asked for, and
    /// `buffer_len`, the bytes the buffer holds; say what to do next.
    ///
    /// A buffer too small (`STATUS_BUFFER_TOO_SMALL`, `STATUS_BUFFER_OVERFLOW`) is grown by
    /// what it lacks and the same index queried again (`STATUS_INTEGER_OVERFLOW` when
    /// `buffer_len` does not fit a `u32`). Any other error ends the enumeration with it.
    /// No name ends it; a name is collected and the next index queried.
    pub fn next(&mut self, outcome: Result<Option<Vec<u16>>, NtError>, result_len: u32, buffer_len: usize) -> (r: EnumStep)
        requires
            outcome is Ok ==> old(self)@.1 < u32::MAX,
        ensures
            match outcome {
                Err(e) => final(self)@ == old(self)@ && if e.status == STATUS_BUFFER_TOO_SMALL
                    || e.status == STATUS_BUFFER_OVERFLOW {
                    if buffer_len > u32::MAX {
                        r == EnumStep::Failed(NtError { status: STATUS_INTEGER_OVERFLOW })
                    } else {
                        r == EnumStep::GrowBuffer {
                            additional: (if result_len >= buffer_len {
                                result_len - buffer_len
                            } else {
                                0
                            }) as usize,
                        }
                    }
                } else {
                    r == EnumStep::Failed(e)
                },
                Ok(None) => r == EnumStep::Done && final(self)@ == (old(self)@.0, (old(self)@.1 + 1) as u32),
                Ok(Some(name)) => r == EnumStep::Query { index: (old(self)@.1 + 1) as u32 }
                    && final(self)@ == (old(self)@.0.push(name@), (old(self)@.1 + 1) as u32),
            },
    {
        match outcome {
            Err(err) => {
                if err.ntstatus() == STATUS_BUFFER_TOO_SMALL || err.ntstatus() == STATUS_BUFFER_OVERFLOW {
                    if buffer_len > u32::MAX as usize {
                        return EnumStep::Failed(NtError::from_ntstatus(STATUS_INTEGER_OVERFLOW));
                    }
                    let held = buffer_len as u32;
                    let additional = result_len.saturating_sub(held);
                    return EnumStep::GrowBuffer { additional: additional as usize };
                }
                EnumStep::Failed(err)
            },
            Ok(found) => {
                self.index = self.index + 1;
                match found {
                    Some(name) => {
                        let ghost before = self.names@;
                        self.names.push(name);
                        assert(names_view(self.names@) =~= names_view(before).push(self.names@.last()@));
                        EnumStep::Query { index: self.index }
                    },
                    None => EnumStep::Done,
                }
            },
        }
    }

    /// The names collected, in the order they were found.
    pub fn into_names(self) -> (names: Vec<Vec<u16>>)
        ensures
            names_view(names@) == self@.0,
    {
        self.names
    }
}

} // verus!
