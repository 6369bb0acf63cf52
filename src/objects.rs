//! Objects, their types and their metadata, with the orders used for listings.

use vstd::prelude::*;
use vstd::string::*;
use std::cmp::Ordering;

use crate::error::{ErrorView, StorageError};
use crate::path::{path_cmp, lemma_path_cmp_equal, ObjectPath};

verus! {

/// Orders two integers.
pub open spec fn int_cmp(a: int, b: int) -> Ordering {
    if a < b {
        Ordering::Less
    } else if a > b {
        Ordering::Greater
    } else {
        Ordering::Equal
    }
}

/// An object's type. Most backends only know files.
#[derive(Clone, Copy, Debug, PartialEq, Eq, Structural, Ord, Hash)]
pub enum ObjectType {
    /// A physical directory.
    Directory,
    /// A regular file.
    File,
    /// A symbolic link.
    Symlink,
    /// A physical object of unknown type.
    Unknown,
}

/// The place of a type in listings: directories first, unknown objects last,
/// files before symlinks.
pub open spec fn type_rank(t: ObjectType) -> int {
    match t {
        ObjectType::Directory => 0,
        ObjectType::File => 1,
        ObjectType::Symlink => 2,
        ObjectType::Unknown => 3,
    }
}

/// The order of object types.
pub open spec fn type_cmp(a: ObjectType, b: ObjectType) -> Ordering {
    int_cmp(type_rank(a), type_rank(b))
}

impl ObjectType {
    /// Compares two types: `Directory` sorts before every other type,
    /// `Unknown` after every other type, and `File` before `Symlink`.
    pub fn cmp(&self, other: &ObjectType) -> (r: Ordering)
        ensures
            r == type_cmp(*self, *other),
    {
        if *self == *other {
            return Ordering::Equal;
        }
        match other {
            ObjectType::Directory => {
                return Ordering::Greater;
            },
            ObjectType::Unknown => {
                return Ordering::Less;
            },
            _ => {},
        }
        match self {
            ObjectType::Directory => Ordering::Less,
            ObjectType::Unknown => Ordering::Greater,
            ObjectType::File => Ordering::Less,
            ObjectType::Symlink => Ordering::Greater,
        }
    }

    /// The short name of the type: `file`, `dir`, `symlink` or `unknown`.
    pub fn label(&self) -> (r: &'static str)
        ensures
            r@ == type_label(*self),
    {
        match self {
            ObjectType::File => "file",
            ObjectType::Directory => "dir",
            ObjectType::Symlink => "symlink",
            ObjectType::Unknown => "unknown",
        }
    }

    /// The short name of the type, as an owned string.
    pub fn to_string(&self) -> (r: String)
        ensures
            r@ == type_label(*self),
    {
        String::from_str(self.label())
    }
}

/// The short name of a type.
pub open spec fn type_label(t: ObjectType) -> Seq<char> {
    match t {
        ObjectType::File => "file"@,
        ObjectType::Directory => "dir"@,
        ObjectType::Symlink => "symlink"@,
        ObjectType::Unknown => "unknown"@,
    }
}

impl PartialOrd for ObjectType {
    fn partial_cmp(&self, other: &ObjectType) -> (r: Option<Ordering>) {
        Some(self.cmp(other))
    }
}

impl vstd::std_specs::cmp::PartialOrdSpecImpl for ObjectType {
    open spec fn obeys_partial_cmp_spec() -> bool {
        true
    }

    open spec fn partial_cmp_spec(&self, other: &ObjectType) -> Option<Ordering> {
        Some(type_cmp(*self, *other))
    }
}

/// The order of types is a strict total order: it is reflexive on equal
/// types, antisymmetric and transitive, puts `Directory` before every other
/// type and `Unknown` after every other type, and `File` before `Symlink`.
pub proof fn type_order_is_total()
    ensures
        forall|a: ObjectType, b: ObjectType| (type_cmp(a, b) == Ordering::Equal) == (a == b),
        forall|a: ObjectType, b: ObjectType|
            (#[trigger] type_cmp(a, b) == Ordering::Less) == (type_cmp(b, a) == Ordering::Greater),
        forall|a: ObjectType, b: ObjectType, c: ObjectType|
            #[trigger] type_cmp(a, b) == Ordering::Less && #[trigger] type_cmp(b, c) == Ordering::Less
                ==> type_cmp(a, c) == Ordering::Less,
        forall|t: ObjectType|
            t != ObjectType::Directory ==> #[trigger] type_cmp(ObjectType::Directory, t) == Ordering::Less,
        forall|t: ObjectType|
            t != ObjectType::Unknown ==> #[trigger] type_cmp(t, ObjectType::Unknown) == Ordering::Less,
        type_cmp(ObjectType::File, ObjectType::Symlink) == Ordering::Less,
{
    assert forall|a: ObjectType, b: ObjectType| (type_cmp(a, b) == Ordering::Equal) == (a == b) by {
        match a {
            ObjectType::Directory => {},
            ObjectType::File => {},
            ObjectType::Symlink => {},
            ObjectType::Unknown => {},
        }
        match b {
            ObjectType::Directory => {},
            ObjectType::File => {},
            ObjectType::Symlink => {},
            ObjectType::Unknown => {},
        }
    }
}

/// A point in time: seconds and nanoseconds since the Unix epoch.
#[derive(Clone, Copy, Debug, PartialEq, Eq, Structural, Hash)]
pub struct Timestamp {
    pub secs: u64,
    pub nanos: u32,
}

/// Information about an object stored in a backend. Some of it is optional
/// because not all backends report it.
pub trait ObjectInfo: Sized {
    /// The object's path.
    spec fn path_view(&self) -> Seq<Seq<char>>;

    /// The object's size in bytes.
    spec fn len_view(&self) -> u64;

    /// The object's type.
    spec fn type_view(&self) -> ObjectType;

    /// The object's last modification time, where the backend reports one.
    spec fn modified_view(&self) -> Option<Timestamp>;

    /// Gets the object's path.
    fn path(&self) -> (r: ObjectPath)
        ensures
            r@ == self.path_view(),
    ;

    /// Gets the object's size in bytes.
    fn len(&self) -> (r: u64)
        ensures
            r == self.len_view(),
    ;

    /// Checks if the object is empty.
    fn is_empty(&self) -> (r: bool)
        ensures
            r == (self.len_view() == 0),
    {
        self.len() == 0
    }

    /// Gets the object's type.
    fn object_type(&self) -> (r: ObjectType)
        ensures
            r == self.type_view(),
    ;

    /// Gets the last modification time for the object.
    fn modified(&self) -> (r: Option<Timestamp>)
        ensures
            r == self.modified_view(),
    ;

    /// Describes an upload of this object to the path that `path` reads as,
    /// keeping its modification time; fails if `path` is not a valid path.
    fn as_upload(&self, path: &str) -> (r: Result<UploadInfo, StorageError>)
        ensures
            match r {
                Ok(u) => crate::path::parses(path@) && u.path@ == crate::path::segments_of(path@)
                    && u.path.wf() && u.modified == self.modified_view(),
                Err(e) => !crate::path::parses(path@) && e@ == ErrorView::InvalidPath(path@),
            },
    {
        match ObjectPath::new(path) {
            Ok(p) => Ok(UploadInfo { path: p, modified: self.modified() }),
            Err(e) => Err(e),
        }
    }
}

/// An object on the local file system.
#[derive(Clone, Debug)]
pub struct FileObject {
    path: ObjectPath,
    size: u64,
    object_type: ObjectType,
    modified: Option<Timestamp>,
}

impl FileObject {
    /// Builds the description of a local object.
    pub fn new(path: ObjectPath, size: u64, object_type: ObjectType, modified: Option<Timestamp>) -> (r: FileObject)
        ensures
            r.path_view() == path@,
            r.len_view() == size,
            r.type_view() == object_type,
            r.modified_view() == modified,
    {
        FileObject { path, size, object_type, modified }
    }
}

impl ObjectInfo for FileObject {
    closed spec fn path_view(&self) -> Seq<Seq<char>> {
        self.path@
    }

    closed spec fn len_view(&self) -> u64 {
        self.size
    }

    closed spec fn type_view(&self) -> ObjectType {
        self.object_type
    }

    closed spec fn modified_view(&self) -> Option<Timestamp> {
        self.modified
    }

    fn path(&self) -> (r: ObjectPath) {
        self.path.duplicate()
    }

    fn len(&self) -> (r: u64) {
        self.size
    }

    fn object_type(&self) -> (r: ObjectType) {
        self.object_type
    }

    fn modified(&self) -> (r: Option<Timestamp>) {
        self.modified
    }
}

/// An object in a remote object store, which holds files only.
#[derive(Clone, Debug)]
pub struct B2Object {
    path: ObjectPath,
    size: u64,
    modified: Option<Timestamp>,
}

impl B2Object {
    /// Builds the description of a remote object.
    pub fn new(path: ObjectPath, size: u64, modified: Option<Timestamp>) -> (r: B2Object)
        ensures
            r.path_view() == path@,
            r.len_view() == size,
            r.type_view() == ObjectType::File,
            r.modified_view() == modified,
    {
        B2Object { path, size, modified }
    }
}

impl ObjectInfo for B2Object {
    closed spec fn path_view(&self) -> Seq<Seq<char>> {
        self.path@
    }

    closed spec fn len_view(&self) -> u64 {
        self.size
    }

    closed spec fn type_view(&self) -> ObjectType {
        ObjectType::File
    }

    closed spec fn modified_view(&self) -> Option<Timestamp> {
        self.modified
    }

    fn path(&self) -> (r: ObjectPath) {
        self.path.duplicate()
    }

    fn len(&self) -> (r: u64) {
        self.size
    }

    fn object_type(&self) -> (r: ObjectType) {
        ObjectType::File
    }

    fn modified(&self) -> (r: Option<Timestamp>) {
        self.modified
    }
}

/// An object that exists at a path in some backend, one variant per backend.
#[derive(Clone, Debug)]
pub enum Object {
    B2(B2Object),
    File(FileObject),
}

impl ObjectInfo for Object {
    open spec fn path_view(&self) -> Seq<Seq<char>> {
        match self {
            Object::B2(o) => o.path_view(),
            Object::File(o) => o.path_view(),
        }
    }

    open spec fn len_view(&self) -> u64 {
        match self {
            Object::B2(o) => o.len_view(),
            Object::File(o) => o.len_view(),
        }
    }

    open spec fn type_view(&self) -> ObjectType {
        match self {
            Object::B2(o) => o.type_view(),
            Object::File(o) => o.type_view(),
        }
    }

    open spec fn modified_view(&self) -> Option<Timestamp> {
        match self {
            Object::B2(o) => o.modified_view(),
            Object::File(o) => o.modified_view(),
        }
    }

    fn path(&self) -> (r: ObjectPath) {
        match self {
            Object::B2(o) => o.path(),
            Object::File(o) => o.path(),
        }
    }

    fn len(&self) -> (r: u64) {
        match self {
            Object::B2(o) => o.len(),
            Object::File(o) => o.len(),
        }
    }

    fn object_type(&self) -> (r: ObjectType) {
        match self {
            Object::B2(o) => o.object_type(),
            Object::File(o) => o.object_type(),
        }
    }

    fn modified(&self) -> (r: Option<Timestamp>) {
        match self {
            Object::B2(o) => o.modified(),
            Object::File(o) => o.modified(),
        }
    }
}

/// The order of objects: by path, then by size.
pub open spec fn object_cmp(a: Object, b: Object) -> Ordering {
    if a.path_view() != b.path_view() {
        path_cmp(a.path_view(), b.path_view())
    } else {
        int_cmp(a.len_view() as int, b.len_view() as int)
    }
}

impl Object {
    /// Compares two objects: by path, and by size where the paths are equal.
    pub fn cmp(&self, other: &Object) -> (r: Ordering)
        ensures
            r == object_cmp(*self, *other),
            self.path_view() != other.path_view() ==> r == path_cmp(self.path_view(), other.path_view()),
            self.path_view() == other.path_view() ==> r == int_cmp(self.len_view() as int, other.len_view() as int),
    {
        let a = self.path();
        let b = other.path();
        let order = a.cmp_path(&b);
        proof {
            lemma_path_cmp_equal(a@, b@);
        }
        match order {
            Ordering::Equal => {},
            _ => {
                return order;
            },
        }
        let la = self.len();
        let lb = other.len();
        if la < lb {
            Ordering::Less
        } else if la > lb {
            Ordering::Greater
        } else {
            Ordering::Equal
        }
    }
}

impl PartialEq for Object {
    fn eq(&self, other: &Object) -> (r: bool) {
        proof {
            lemma_path_cmp_equal(self.path_view(), other.path_view());
        }
        match self.cmp(other) {
            Ordering::Equal => true,
            _ => false,
        }
    }
}

impl Eq for Object {

}

impl vstd::std_specs::cmp::PartialEqSpecImpl for Object {
    open spec fn obeys_eq_spec() -> bool {
        true
    }

    open spec fn eq_spec(&self, other: &Object) -> bool {
        self.path_view() == other.path_view() && self.len_view() == other.len_view()
    }
}

impl PartialOrd for Object {
    fn partial_cmp(&self, other: &Object) -> (r: Option<Ordering>) {
        Some(self.cmp(other))
    }
}

impl vstd::std_specs::cmp::PartialOrdSpecImpl for Object {
    open spec fn obeys_partial_cmp_spec() -> bool {
        true
    }

    open spec fn partial_cmp_spec(&self, other: &Object) -> Option<Ordering> {
        Some(object_cmp(*self, *other))
    }
}

/// Where an upload goes, and the modification time to set if the backend
/// supports it.
#[derive(Clone, Debug)]
pub struct UploadInfo {
    /// The path to upload to.
    pub path: ObjectPath,
    /// Sets the last modified time for the file.
    pub modified: Option<Timestamp>,
}

impl UploadInfo {
    /// An upload to the object's path, keeping its modification time.
    pub fn from_object<I: ObjectInfo>(info: &I) -> (r: UploadInfo)
        ensures
            r.path@ == info.path_view(),
            r.modified == info.modified_view(),
    {
        UploadInfo { path: info.path(), modified: info.modified() }
    }

    /// An upload to the path that `s` reads as; fails if `s` is not a valid path.
    pub fn try_from_str(s: &str) -> (r: Result<UploadInfo, StorageError>)
        ensures
            match r {
                Ok(u) => crate::path::parses(s@) && u.path@ == crate::path::segments_of(s@)
                    && u.path.wf() && u.modified is None,
                Err(e) => !crate::path::parses(s@) && e@ == ErrorView::InvalidPath(s@),
            },
    {
        match ObjectPath::new(s) {
            Ok(p) => Ok(UploadInfo::from(p)),
            Err(e) => Err(e),
        }
    }
}

impl From<ObjectPath> for UploadInfo {
    fn from(path: ObjectPath) -> (r: UploadInfo) {
        UploadInfo { path, modified: None }
    }
}

impl vstd::std_specs::convert::FromSpecImpl<ObjectPath> for UploadInfo {
    open spec fn obeys_from_spec() -> bool {
        true
    }

    open spec fn from_spec(path: ObjectPath) -> UploadInfo {
        UploadInfo { path, modified: None }
    }
}

} // verus!
