//! Sysfs attributes.
//!
//! An [`Attribute`] names an attribute file and, by its type parameter, the access that it was
//! opened for. Reading and writing the file is left to the caller, which opens and closes the file
//! for every access.

pub mod access;

use std::marker::PhantomData;
use vstd::prelude::*;

verus! {

/// Read-only access.
#[derive(Clone, Copy, Debug)]
pub struct Read {}

impl access::Access for Read {}

impl access::Read for Read {}

/// Write-only access.
#[derive(Clone, Copy, Debug)]
pub struct Write {}

impl access::Access for Write {}

impl access::Write for Write {}

/// Read and write access.
#[derive(Clone, Copy, Debug)]
pub struct ReadWrite {}

impl access::Access for ReadWrite {}

impl access::Read for ReadWrite {}

impl access::Write for ReadWrite {}

/// A sysfs attribute at `path` with access `S`.
#[derive(Debug)]
pub struct Attribute<S: access::Access + Send> {
    /// Path of the attribute file.
    pub path: String,
    pub _dir: PhantomData<S>,
}

impl<S: access::Access + Send> Clone for Attribute<S> {
    fn clone(&self) -> (res: Self)
        ensures
            res.path@ == self.path@,
    {
        Attribute { path: self.path.clone(), _dir: PhantomData }
    }
}

impl Attribute<Read> {
    /// Attribute at `path` for reading.
    ///
    /// The caller checks that the file opens for reading before it uses the attribute.
    pub fn readable(path: String) -> (attr: Self)
        ensures
            attr.path@ == path@,
    {
        Attribute { path, _dir: PhantomData }
    }
}

impl Attribute<Write> {
    /// Attribute at `path` for writing.
    ///
    /// The caller checks that the file opens for writing before it uses the attribute.
    pub fn writable(path: String) -> (attr: Self)
        ensures
            attr.path@ == path@,
    {
        Attribute { path, _dir: PhantomData }
    }
}

impl Attribute<ReadWrite> {
    /// Attribute at `path` for reading and writing.
    ///
    /// The caller checks that the file opens both for reading and for writing before it uses the
    /// attribute.
    pub fn read_and_writable(path: String) -> (attr: Self)
        ensures
            attr.path@ == path@,
    {
        Attribute { path, _dir: PhantomData }
    }
}

} // verus!
