//! Object metadata shared by every resource: the common envelope each object
//! carries regardless of its kind, which lets one store and one set of rules
//! serve all kinds.

use vstd::prelude::*;

use crate::duplicate::Duplicate;
use crate::labels::Labels;
use crate::text::Chars;

verus! {

#[derive(Debug, Clone, PartialEq)]
pub struct ObjectMeta {
    pub name: String,
    pub uid: Option<String>,
    pub resource_version: Option<String>,
    pub generation: Option<u64>,
    pub creation_timestamp: Option<String>,
    /// Tags used by selectors: a ReplicaSet finds its Pods by matching labels.
    pub labels: Labels,
    /// Links this object to the controllers that own it. A ReplicaSet stamps
    /// one of these, with `controller: true`, onto each Pod it creates.
    pub owner_references: Vec<OwnerReference>,
}

#[derive(Debug, Clone, PartialEq)]
pub struct OwnerReference {
    pub api_version: String,
    pub kind: String,
    pub name: String,
    pub uid: String,
    /// True for the single managing controller.
    pub controller: bool,
}

/// What an `OwnerReference` holds.
#[verifier::ext_equal]
pub struct OwnerReferenceView {
    pub api_version: Seq<char>,
    pub kind: Seq<char>,
    pub name: Seq<char>,
    pub uid: Seq<char>,
    pub controller: bool,
}

/// What an `ObjectMeta` holds.
#[verifier::ext_equal]
pub struct MetaView {
    pub name: Seq<char>,
    pub uid: Option<Seq<char>>,
    pub resource_version: Option<Seq<char>>,
    pub generation: Option<u64>,
    pub creation_timestamp: Option<Seq<char>>,
    pub labels: Map<Seq<char>, Seq<char>>,
    pub owner_references: Seq<OwnerReferenceView>,
}

impl DeepView for OwnerReference {
    type V = OwnerReferenceView;

    open spec fn deep_view(&self) -> OwnerReferenceView {
        OwnerReferenceView {
            api_version: self.api_version@,
            kind: self.kind@,
            name: self.name@,
            uid: self.uid@,
            controller: self.controller,
        }
    }
}

impl DeepView for ObjectMeta {
    type V = MetaView;

    open spec fn deep_view(&self) -> MetaView {
        MetaView {
            name: self.name@,
            uid: self.uid.deep_view(),
            resource_version: self.resource_version.deep_view(),
            generation: self.generation,
            creation_timestamp: self.creation_timestamp.deep_view(),
            labels: self.labels@,
            owner_references: self.owner_references.deep_view(),
        }
    }
}

impl Duplicate for OwnerReference {
    fn duplicate(&self) -> (copy: Self) {
        OwnerReference {
            api_version: self.api_version.clone(),
            kind: self.kind.clone(),
            name: self.name.clone(),
            uid: self.uid.clone(),
            controller: self.controller,
        }
    }
}

impl Duplicate for ObjectMeta {
    fn duplicate(&self) -> (copy: Self) {
        ObjectMeta {
            name: self.name.clone(),
            uid: self.uid.duplicate(),
            resource_version: self.resource_version.duplicate(),
            generation: self.generation,
            creation_timestamp: self.creation_timestamp.duplicate(),
            labels: self.labels.duplicate(),
            owner_references: self.owner_references.duplicate(),
        }
    }
}

impl MetaView {
    /// Metadata that has a name and nothing else.
    pub open spec fn named(name: Seq<char>) -> MetaView {
        MetaView {
            name,
            uid: None,
            resource_version: None,
            generation: None,
            creation_timestamp: None,
            labels: Map::empty(),
            owner_references: Seq::empty(),
        }
    }
}

impl Default for ObjectMeta {
    fn default() -> (meta: Self)
        ensures
            meta.deep_view() == MetaView::named(Seq::empty()),
    {
        ObjectMeta::named(String::new())
    }
}

impl ObjectMeta {
    /// Metadata that has a name and nothing else.
    pub fn named(name: String) -> (meta: Self)
        ensures
            meta.deep_view() == MetaView::named(name@),
    {
        let owner_references: Vec<OwnerReference> = Vec::new();
        assert(owner_references.deep_view() =~= Seq::<OwnerReferenceView>::empty());
        ObjectMeta {
            name,
            uid: None,
            resource_version: None,
            generation: None,
            creation_timestamp: None,
            labels: Labels::new(),
            owner_references,
        }
    }
}

/// What the store needs to know of a kind of object: its key prefix, its
/// metadata, and what becomes of its status when an object is created or its
/// spec is replaced.
pub trait ResourceMeta: Duplicate {
    /// The prefix of the kind's keys.
    spec fn prefix() -> Chars;

    spec fn meta_of(v: Self::V) -> MetaView;

    spec fn with_meta(v: Self::V, m: MetaView) -> Self::V;

    spec fn without_status(v: Self::V) -> Self::V;

    spec fn with_status_of(v: Self::V, current: Self::V) -> Self::V;

    /// Metadata and status are independent parts of an object.
    proof fn parts_are_independent(v: Self::V, m: MetaView, current: Self::V)
        ensures
            Self::meta_of(Self::with_meta(v, m)) == m,
            Self::with_meta(v, Self::meta_of(v)) == v,
            Self::meta_of(Self::without_status(v)) == Self::meta_of(v),
            Self::meta_of(Self::with_status_of(v, current)) == Self::meta_of(v),
    ;

    fn kind_prefix() -> (prefix: &'static str)
        ensures
            prefix@ == Self::prefix(),
    ;

    fn meta(&self) -> (meta: &ObjectMeta)
        ensures
            meta.deep_view() == Self::meta_of(self.deep_view()),
    ;

    fn meta_mut(&mut self) -> (meta: &mut ObjectMeta)
        ensures
            meta.deep_view() == Self::meta_of(old(self).deep_view()),
            final(self).deep_view() == Self::with_meta(
                old(self).deep_view(),
                final(meta).deep_view(),
            ),
    ;

    fn clear_status(&mut self)
        ensures
            final(self).deep_view() == Self::without_status(old(self).deep_view()),
    ;

    fn inherit_status(&mut self, current: &Self)
        ensures
            final(self).deep_view() == Self::with_status_of(
                old(self).deep_view(),
                current.deep_view(),
            ),
    ;
}

/// The metadata of an object that is being created: identity, time and first
/// generation are the server's, whatever the client sent.
pub open spec fn stamped_meta(m: MetaView, uid: Seq<char>, created: Seq<char>) -> MetaView {
    MetaView {
        uid: Some(uid),
        creation_timestamp: Some(created),
        generation: Some(1),
        ..m
    }
}

/// An object that is being created has no status yet.
pub open spec fn stamped<T: ResourceMeta>(v: T::V, uid: Seq<char>, created: Seq<char>) -> T::V {
    let cleared = T::without_status(v);
    T::with_meta(cleared, stamped_meta(T::meta_of(cleared), uid, created))
}

/// Stamps an object that is being created with its identity and time.
pub fn stamp_for_create<T: ResourceMeta>(obj: &mut T, uid: String, created: String)
    ensures
        final(obj).deep_view() == stamped::<T>(old(obj).deep_view(), uid@, created@),
{
    obj.clear_status();
    let meta = obj.meta_mut();
    meta.uid = Some(uid);
    meta.creation_timestamp = Some(created);
    meta.generation = Some(1);
}

} // verus!
