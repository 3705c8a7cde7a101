//! Extension descriptors and a registry that refuses duplicate extension ids.

use vstd::prelude::*;

use crate::error::HyperError;
use crate::text::{owned, push_str, text_eq};

verus! {

/// Description of an extension point implementation.
#[derive(Debug, Clone, Copy)]
pub struct ExtensionDescriptor {
    /// Unique extension id.
    pub id: &'static str,
    /// Extension category.
    pub kind: &'static str,
    /// What the extension is for.
    pub description: &'static str,
}

impl ExtensionDescriptor {
    /// Creates a descriptor.
    pub fn new(id: &'static str, kind: &'static str, description: &'static str) -> (d:
        ExtensionDescriptor)
        ensures
            d.id@ == id@,
            d.kind@ == kind@,
            d.description@ == description@,
    {
        ExtensionDescriptor { id, kind, description }
    }
}

/// An extension that the registry can identify.
pub trait DescribedExtension {
    /// The id this extension reports.
    spec fn extension_id(&self) -> Seq<char>;

    /// Returns the extension's descriptor.
    fn descriptor(&self) -> (d: ExtensionDescriptor)
        ensures
            d.id@ == self.extension_id(),
    ;
}

/// A descriptor describes itself, so descriptors can be registered directly.
impl DescribedExtension for ExtensionDescriptor {
    open spec fn extension_id(&self) -> Seq<char> {
        self.id@
    }

    fn descriptor(&self) -> (d: ExtensionDescriptor) {
        *self
    }
}

/// Ids of a sequence of extensions, in order.
pub open spec fn extension_ids<T: DescribedExtension>(s: Seq<T>) -> Seq<Seq<char>> {
    s.map_values(|e: T| e.extension_id())
}

/// Position of the first extension with the given id, if any.
pub open spec fn first_with_id<T: DescribedExtension>(s: Seq<T>, id: Seq<char>) -> Option<int> {
    if exists|i: int| 0 <= i < s.len() && #[trigger] s[i].extension_id() == id {
        Some(
            choose|i: int|
                0 <= i < s.len() && #[trigger] s[i].extension_id() == id && forall|j: int|
                    0 <= j < i ==> #[trigger] s[j].extension_id() != id,
        )
    } else {
        None
    }
}

/// Generic registry of extensions.
pub struct ExtensionRegistry<T> {
    /// Registered extensions, in registration order.
    pub entries: Vec<T>,
}

impl<T> ExtensionRegistry<T> {
    /// An empty registry.
    pub fn new() -> (r: ExtensionRegistry<T>)
        ensures
            r.entries@ == Seq::<T>::empty(),
    {
        ExtensionRegistry { entries: Vec::new() }
    }

    /// A registry holding the given extensions.
    pub fn from_entries(entries: Vec<T>) -> (r: ExtensionRegistry<T>)
        ensures
            r.entries@ == entries@,
    {
        ExtensionRegistry { entries }
    }

    /// All registered extensions, in order.
    pub fn iter(&self) -> (r: &[T])
        ensures
            r@ == self.entries@,
    {
        self.entries.as_slice()
    }

    /// Number of extensions.
    pub fn len(&self) -> (n: usize)
        ensures
            n == self.entries@.len(),
    {
        self.entries.len()
    }

    /// Whether the registry is empty.
    pub fn is_empty(&self) -> (b: bool)
        ensures
            b == (self.entries@.len() == 0),
    {
        self.entries.len() == 0
    }
}

impl<T: DescribedExtension> ExtensionRegistry<T> {
    /// Finds the first extension with the given id.
    pub fn find(&self, id: &str) -> (r: Option<&T>)
        ensures
            r is Some <==> first_with_id(self.entries@, id@) is Some,
            r matches Some(e) ==> *e == self.entries@[first_with_id(self.entries@, id@)->0],
    {
        let mut i: usize = 0;
        while i < self.entries.len()
            invariant
                i <= self.entries@.len(),
                forall|j: int| 0 <= j < i ==> #[trigger] self.entries@[j].extension_id() != id@,
            decreases self.entries.len() - i,
        {
            let d = self.entries[i].descriptor();
            if text_eq(d.id, id) {
                proof {
                    let k = choose|k: int|
                        0 <= k < self.entries@.len() && #[trigger] self.entries@[k].extension_id()
                            == id@ && forall|j: int|
                            0 <= j < k ==> #[trigger] self.entries@[j].extension_id() != id@;
                    assert(k == i) by {
                        if k < i {
                        } else if k > i {
                        }
                    }
                }
                return Some(&self.entries[i]);
            }
            i = i + 1;
        }
        None
    }

    /// Registers an extension; an id that is already registered is refused,
    /// so a later entry never silently shadows an earlier one.
    pub fn register(&mut self, extension: T) -> (r: Result<(), HyperError>)
        ensures
            r is Ok <==> first_with_id(old(self).entries@, extension.extension_id()) is None,
            r is Ok ==> final(self).entries@ == old(self).entries@.push(extension),
            r matches Err(e) ==> final(self).entries@ == old(self).entries@ && e.message@
                == "extension already registered: "@ + extension.extension_id(),
    {
        let descriptor = extension.descriptor();
        if self.find(descriptor.id).is_some() {
            let mut message = owned("extension already registered: ");
            push_str(&mut message, descriptor.id);
            return Err(HyperError::from_message(message));
        }
        self.entries.push(extension);
        Ok(())
    }
}

/// Registering only ever leaves extension ids without duplicates.
pub proof fn law_register_keeps_ids_unique<T: DescribedExtension>(before: Seq<T>, e: T)
    requires
        extension_ids(before).no_duplicates(),
        first_with_id(before, e.extension_id()) is None,
    ensures
        extension_ids(before.push(e)).no_duplicates(),
{
    let after = before.push(e);
    assert forall|a: int, b: int|
        0 <= a < after.len() && 0 <= b < after.len() && a != b implies extension_ids(after)[a]
        != extension_ids(after)[b] by {
        if a < before.len() && b < before.len() {
            assert(extension_ids(after)[a] == extension_ids(before)[a]);
            assert(extension_ids(after)[b] == extension_ids(before)[b]);
        } else if a == before.len() {
            assert(before[b].extension_id() != e.extension_id());
        } else {
            assert(before[a].extension_id() != e.extension_id());
        }
    }
}

} // verus!
