//! Paths as byte strings with `/` between their components.

use vstd::prelude::*;
use vstd::slice::slice_subrange;
use std::marker::PhantomData;
use std::path::PathBuf;
use vstd::std_specs::cmp::PartialEqSpecImpl;

verus! {

/// Marks what an encoded path names: a file of this machine, or an entry of a store.
pub trait PathKind: Sized {

}

/// The kind of a path that names a file of this machine.
#[derive(Debug)]
pub enum Local {
    /// The one value of the kind; a path carries the kind in its type only.
    Local,
}

impl PathKind for Local {

}

/// The kind of a path that names an entry of a store.
#[derive(Debug)]
pub enum External {
    /// The one value of the kind; a path carries the kind in its type only.
    External,
}

impl PathKind for External {

}

/// A path as bytes, with `/` as the only separator of its components.
#[derive(Debug)]
pub struct EncodedPath<K: PathKind>(Vec<u8>, PhantomData<K>);

impl<K: PathKind> View for EncodedPath<K> {
    type V = Seq<u8>;

    closed spec fn view(&self) -> Seq<u8> {
        self.0@
    }
}

/// `bytes` with every `separator` turned into `/`.
pub open spec fn with_slashes(bytes: Seq<u8>, separator: u8) -> Seq<u8> {
    bytes.map_values(|b: u8| if b == separator { 0x2f } else { b })
}

/// The index at which a path parts into parent and name: that of its last `/`,
/// or zero where it has none.
pub open spec fn parent_len(bytes: Seq<u8>) -> int
    decreases bytes.len(),
{
    if bytes.len() == 0 {
        0
    } else if bytes.last() == 0x2f {
        bytes.len() - 1
    } else {
        parent_len(bytes.drop_last())
    }
}

/// `std::path::PathBuf`, which the library hands on and never looks into.
#[verifier::external_type_specification]
#[verifier::external_body]
pub struct ExPathBuf(std::path::PathBuf);

/// `os_str_bytes::EncodingError`, which the library hands on and never looks into.
#[verifier::external_type_specification]
#[verifier::external_body]
pub struct ExEncodingError(os_str_bytes::EncodingError);

/// The bytes of `path`, by `OsStringBytes::into_raw_vec` of the `os_str_bytes`
/// crate. The encoding is the platform's: nothing is claimed of the bytes.
#[verifier::external_body]
fn path_into_raw_vec(path: PathBuf) -> (bytes: Vec<u8>) {
    os_str_bytes::OsStringBytes::into_raw_vec(path)
}

/// The path that `bytes` encode, by `OsStringBytes::from_raw_vec` of the
/// `os_str_bytes` crate. Which bytes are a path is the platform's to say:
/// nothing is claimed of the result.
#[verifier::external_body]
fn path_from_raw_vec(bytes: Vec<u8>) -> (r: Result<PathBuf, os_str_bytes::EncodingError>) {
    os_str_bytes::OsStringBytes::from_raw_vec(bytes)
}

/// `bytes` with every `/` turned into `separator`.
pub open spec fn with_separator(bytes: Seq<u8>, separator: u8) -> Seq<u8> {
    bytes.map_values(|b: u8| if b == 0x2f { separator } else { b })
}

/// Encoding what is encoded already changes nothing.
pub proof fn lemma_with_slashes_twice(bytes: Seq<u8>, separator: u8)
    ensures
        with_slashes(with_slashes(bytes, separator), separator) == with_slashes(bytes, separator),
{
    assert(with_slashes(with_slashes(bytes, separator), separator) =~= with_slashes(
        bytes,
        separator,
    ));
}

/// A path written with `separator` comes back from its encoding as it was,
/// provided that it holds no `/` of its own besides the separator.
pub proof fn lemma_separator_comes_back(bytes: Seq<u8>, separator: u8)
    requires
        separator == 0x2f || forall|i: int| 0 <= i < bytes.len() ==> bytes[i] != 0x2f,
    ensures
        with_separator(with_slashes(bytes, separator), separator) == bytes,
{
    assert(with_separator(with_slashes(bytes, separator), separator) =~= bytes);
}

/// The separator of path components on this platform, as `std::path::MAIN_SEPARATOR`
/// gives it. Nothing is claimed of its value.
#[verifier::external_body]
fn main_separator() -> (separator: u8) {
    std::path::MAIN_SEPARATOR as u8
}

impl EncodedPath<Local> {
    /// Encodes a path of this machine: its bytes, with the platform's
    /// separator turned into `/`.
    pub fn from_path(path: PathBuf) -> (r: Self)
        ensures
            exists|raw: Seq<u8>, separator: u8| r@ == with_slashes(raw, separator),
    {
        let vec = path_into_raw_vec(path);
        EncodedPath::from_vec(vec).cast_to()
    }

    /// The bytes of the path as the platform writes it with `separator`.
    pub fn to_raw(&self, separator: u8) -> (r: Vec<u8>)
        ensures
            r@ == with_separator(self@, separator),
    {
        let mut vec = self.0.clone();
        assert(vec@ == self@);
        let mut i: usize = 0;
        while i < vec.len()
            invariant
                i <= vec.len(),
                vec@.len() == self@.len(),
                forall|k: int| 0 <= k < i ==> vec@[k] == with_separator(self@, separator)[k],
                forall|k: int| i <= k < vec.len() ==> vec@[k] == self@[k],
            decreases vec.len() - i,
        {
            if vec[i] == 0x2f {
                vec[i] = separator;
            }
            i += 1;
        }
        assert(vec@ =~= with_separator(self@, separator));
        vec
    }

    /// Decodes to a path of this machine: every `/` becomes the platform's
    /// separator, and the platform reads the bytes. Fails where it cannot
    /// read them.
    pub fn to_path(&self) -> (r: Result<PathBuf, os_str_bytes::EncodingError>) {
        path_from_raw_vec(self.to_raw(main_separator()))
    }
}

impl EncodedPath<External> {
    /// Takes `vec` as a path written with `separator`, and encodes it.
    pub fn normalized(vec: Vec<u8>, separator: u8) -> (r: Self)
        ensures
            r@ == with_slashes(vec@, separator),
    {
        let mut vec = vec;
        let ghost given = vec@;
        let mut i: usize = 0;
        while i < vec.len()
            invariant
                i <= vec.len(),
                vec@.len() == given.len(),
                forall|k: int| 0 <= k < i ==> vec@[k] == with_slashes(given, separator)[k],
                forall|k: int| i <= k < vec.len() ==> vec@[k] == given[k],
            decreases vec.len() - i,
        {
            if vec[i] == separator {
                vec[i] = 0x2f;
            }
            i += 1;
        }
        assert(vec@ =~= with_slashes(given, separator));
        EncodedPath(vec, PhantomData)
    }

    /// Takes `vec` as a path written with this platform's separator, and encodes it.
    pub fn from_vec(vec: Vec<u8>) -> (r: Self)
        ensures
            exists|separator: u8| r@ == with_slashes(vec@, separator),
    {
        Self::normalized(vec, main_separator())
    }
}

impl<K: PathKind> EncodedPath<K> {
    /// The same bytes as a path of another kind.
    pub fn cast_to<T: PathKind>(self) -> (r: EncodedPath<T>)
        ensures
            r@ == self@,
    {
        EncodedPath(self.0, PhantomData)
    }

    /// The bytes of the path.
    pub fn as_bytes(&self) -> (r: &[u8])
        ensures
            r@ == self@,
    {
        self.0.as_slice()
    }

    /// Parts the path at its last `/`: the parent, and the name with the `/` before it.
    /// A path without a `/` has an empty parent.
    pub fn split_parent(&self) -> (r: (&[u8], &[u8]))
        ensures
            r.0@ == self@.subrange(0, parent_len(self@)),
            r.1@ == self@.subrange(parent_len(self@), self@.len() as int),
            0 <= parent_len(self@) <= self@.len(),
    {
        let bytes = self.0.as_slice();
        let mut at: usize = bytes.len();
        assert(self@.subrange(0, at as int) =~= self@);
        while at > 0 && bytes[at - 1] != 0x2f
            invariant
                at <= bytes.len(),
                bytes@ == self@,
                parent_len(self@) == parent_len(self@.subrange(0, at as int)),
            decreases at,
        {
            assert(self@.subrange(0, at as int).drop_last() =~= self@.subrange(0, at - 1));
            at -= 1;
        }
        let slash = if at > 0 {
            at - 1
        } else {
            0
        };
        (slice_subrange(bytes, 0, slash), slice_subrange(bytes, slash, bytes.len()))
    }
}

impl<K: PathKind> PartialEq for EncodedPath<K> {
    fn eq(&self, other: &Self) -> (r: bool) {
        let r = self.0 == other.0;
        assert(r == (self.0@ =~= other.0@));
        r
    }
}

impl<K: PathKind> PartialEqSpecImpl for EncodedPath<K> {
    open spec fn obeys_eq_spec() -> bool {
        true
    }

    open spec fn eq_spec(&self, other: &Self) -> bool {
        self@ == other@
    }
}

impl<K: PathKind> Eq for EncodedPath<K> {

}

impl<K: PathKind> Clone for EncodedPath<K> {
    fn clone(&self) -> (r: Self)
        ensures
            r@ == self@,
    {
        EncodedPath(self.0.clone(), PhantomData)
    }
}

} // verus!
