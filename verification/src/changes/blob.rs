//! Blob descriptors and the physical identities that comparison goes by.

use vstd::prelude::*;

use crate::text::same_text;

verus! {

/// Where the store keeps the bytes of a managed Blob.
#[derive(Debug, Clone, Copy, PartialEq, Eq, Structural)]
pub enum ManagedBlobKind {
    Inline,
    Packed,
    Dedicated,
}

/// A decoded Blob descriptor. The coordinates of a managed Blob are relative to
/// the data file that owns the row.
#[derive(Debug)]
pub enum BlobDescriptor {
    Null,
    External { uri: String, offset: u64, length: u64 },
    Managed { kind: ManagedBlobKind, position: u64, size: u64, blob_id: u32 },
}

/// The physical identity of a Blob value. Null and external identities say the
/// whole logical value; a managed one is qualified by the path of the data file
/// that owns it, which is never reused.
#[derive(Debug)]
pub enum BlobIdentity {
    Null,
    External { uri: String, offset: u64, length: u64 },
    Managed {
        data_file: String,
        kind: ManagedBlobKind,
        position: u64,
        size: u64,
        blob_id: u32,
    },
}

/// A descriptor over plain values.
pub enum DescriptorView {
    Null,
    External { uri: Seq<char>, offset: u64, length: u64 },
    Managed { kind: ManagedBlobKind, position: u64, size: u64, blob_id: u32 },
}

/// An identity over plain values.
pub enum IdentityView {
    Null,
    External { uri: Seq<char>, offset: u64, length: u64 },
    Managed { data_file: Seq<char>, kind: ManagedBlobKind, position: u64, size: u64, blob_id: u32 },
}

impl View for BlobDescriptor {
    type V = DescriptorView;

    open spec fn view(&self) -> DescriptorView {
        match *self {
            BlobDescriptor::Null => DescriptorView::Null,
            BlobDescriptor::External { uri, offset, length } => DescriptorView::External {
                uri: uri@,
                offset,
                length,
            },
            BlobDescriptor::Managed { kind, position, size, blob_id } => DescriptorView::Managed {
                kind,
                position,
                size,
                blob_id,
            },
        }
    }
}

impl View for BlobIdentity {
    type V = IdentityView;

    open spec fn view(&self) -> IdentityView {
        match *self {
            BlobIdentity::Null => IdentityView::Null,
            BlobIdentity::External { uri, offset, length } => IdentityView::External {
                uri: uri@,
                offset,
                length,
            },
            BlobIdentity::Managed { data_file, kind, position, size, blob_id } =>
                IdentityView::Managed { data_file: data_file@, kind, position, size, blob_id },
        }
    }
}

impl DescriptorView {
    /// The identity of the value that a descriptor in a given data file names.
    pub open spec fn in_file(self, data_file: Seq<char>) -> IdentityView {
        match self {
            DescriptorView::Null => IdentityView::Null,
            DescriptorView::External { uri, offset, length } => IdentityView::External {
                uri,
                offset,
                length,
            },
            DescriptorView::Managed { kind, position, size, blob_id } => IdentityView::Managed {
                data_file,
                kind,
                position,
                size,
                blob_id,
            },
        }
    }
}

impl BlobDescriptor {
    /// The physical identity of the value, qualified by the owning data file
    /// where the descriptor is relative to it.
    pub fn physical_identity(&self, data_file: &str) -> (r: BlobIdentity)
        ensures
            r@ == self@.in_file(data_file@),
    {
        match self {
            BlobDescriptor::Null => BlobIdentity::Null,
            BlobDescriptor::External { uri, offset, length } => BlobIdentity::External {
                uri: uri.clone(),
                offset: *offset,
                length: *length,
            },
            BlobDescriptor::Managed { kind, position, size, blob_id } => BlobIdentity::Managed {
                data_file: String::from_str(data_file),
                kind: *kind,
                position: *position,
                size: *size,
                blob_id: *blob_id,
            },
        }
    }
}

impl BlobIdentity {
    pub fn is_managed(&self) -> (r: bool)
        ensures
            r == (self@ is Managed),
    {
        matches!(self, BlobIdentity::Managed { .. })
    }

    pub fn same_as(&self, other: &Self) -> (r: bool)
        ensures
            r == (self@ == other@),
    {
        match (self, other) {
            (BlobIdentity::Null, BlobIdentity::Null) => true,
            (
                BlobIdentity::External { uri: a, offset: b, length: c },
                BlobIdentity::External { uri: d, offset: e, length: f },
            ) => *b == *e && *c == *f && same_text(a.as_str(), d.as_str()),
            (
                BlobIdentity::Managed { data_file: a, kind: b, position: c, size: d, blob_id: e },
                BlobIdentity::Managed { data_file: f, kind: g, position: h, size: i, blob_id: j },
            ) => *b == *g && *c == *h && *d == *i && *e == *j && same_text(a.as_str(), f.as_str()),
            _ => false,
        }
    }

    pub(crate) fn duplicate(&self) -> (r: Self)
        ensures
            r@ == self@,
    {
        match self {
            BlobIdentity::Null => BlobIdentity::Null,
            BlobIdentity::External { uri, offset, length } => BlobIdentity::External {
                uri: uri.clone(),
                offset: *offset,
                length: *length,
            },
            BlobIdentity::Managed { data_file, kind, position, size, blob_id } =>
                BlobIdentity::Managed {
                data_file: data_file.clone(),
                kind: *kind,
                position: *position,
                size: *size,
                blob_id: *blob_id,
            },
        }
    }
}

/// An external or null identity does not depend on the file the row lies in; a
/// managed one tells the files apart.
pub proof fn only_managed_identities_depend_on_the_file(
    descriptor: DescriptorView,
    a: Seq<char>,
    b: Seq<char>,
)
    ensures
        descriptor is Managed ==> (descriptor.in_file(a) == descriptor.in_file(b) <==> a == b),
        !(descriptor is Managed) ==> descriptor.in_file(a) == descriptor.in_file(b),
{
}

/// An identity keeps the whole descriptor: null stays null, an external one its
/// place, length and location, and a managed one its kind and coordinates, with
/// the data file in front.
pub proof fn an_identity_keeps_the_descriptor(descriptor: DescriptorView, data_file: Seq<char>)
    ensures
        descriptor is Null <==> descriptor.in_file(data_file) is Null,
        descriptor matches DescriptorView::External { uri, offset, length } ==> (
        descriptor.in_file(data_file) matches IdentityView::External {
            uri: u,
            offset: o,
            length: l,
        } && u == uri && o == offset && l == length),
        descriptor matches DescriptorView::Managed { kind, position, size, blob_id } ==> (
        descriptor.in_file(data_file) matches IdentityView::Managed {
            data_file: f,
            kind: k,
            position: p,
            size: s,
            blob_id: b,
        } && f == data_file && k == kind && p == position && s == size && b == blob_id),
{
}

/// What is compared of an identity is all of it.
pub proof fn identities_agree_in_every_part(a: BlobIdentity, b: BlobIdentity)
    ensures
        a@ == b@ <==> match (a, b) {
            (BlobIdentity::Null, BlobIdentity::Null) => true,
            (
                BlobIdentity::External { uri: u, offset: o, length: l },
                BlobIdentity::External { uri: v, offset: p, length: m },
            ) => u@ == v@ && o == p && l == m,
            (
                BlobIdentity::Managed { data_file: f, kind: k, position: p, size: s, blob_id: i },
                BlobIdentity::Managed { data_file: g, kind: l, position: q, size: t, blob_id: j },
            ) => f@ == g@ && k == l && p == q && s == t && i == j,
            _ => false,
        },
        a@ is Null <==> a is Null,
        a@ is External <==> a is External,
        a@ is Managed <==> a is Managed,
{
}

/// What is read of a descriptor is all of it.
pub proof fn descriptors_are_read_whole(descriptor: BlobDescriptor)
    ensures
        match descriptor {
            BlobDescriptor::Null => descriptor@ is Null,
            BlobDescriptor::External { uri, offset, length } => descriptor@ matches
                DescriptorView::External { uri: u, offset: o, length: l } && u == uri@ && o
                == offset && l == length,
            BlobDescriptor::Managed { kind, position, size, blob_id } => descriptor@ matches
                DescriptorView::Managed { kind: k, position: p, size: s, blob_id: i } && k == kind
                && p == position && s == size && i == blob_id,
        },
{
}

} // verus!
