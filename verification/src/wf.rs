//! The consistency of a pool: every index it stores refers to something it holds.
use vstd::prelude::*;
use crate::collect::kind_below;
use crate::definition::NameEntry;
use crate::kind::KindIndex;
use crate::pool::{
    DescriptorPoolInner, EnumDescriptorInner, ExtensionDescriptorInner, FileDescriptorInner,
    MessageDescriptorInner, ServiceDescriptorInner,
};
use crate::visit::Counts;

verus! {

/// Whether the message or enum a field type refers to is below the counters.
pub open spec fn kind_index_below(k: KindIndex, c: Counts) -> bool {
    match k {
        KindIndex::Message(m) => m < c.message,
        KindIndex::Group(m) => m < c.message,
        KindIndex::Enum(e) => e < c.enum_,
        _ => true,
    }
}

/// Whether an optional message index is below the counters.
pub open spec fn parent_below(p: Option<u32>, c: Counts) -> bool {
    p matches Some(q) ==> q < c.message
}

/// Whether every index a message stores, but for those of its extensions, is
/// in range.
pub open spec fn message_shape_ok(m: MessageDescriptorInner, c: Counts) -> bool {
    &&& m.id.file < c.file
    &&& parent_below(m.parent, c)
    &&& forall|k: int| 0 <= k < m.fields@.len() ==> kind_index_below(#[trigger] m.fields@[k].kind, c)
        && (m.fields@[k].oneof matches Some(o) ==> o < m.oneofs@.len())
    &&& forall|k: int| 0 <= k < m.field_numbers@.len() ==> (#[trigger] m.field_numbers@[k]).1 < m.fields@.len()
    &&& forall|o: int, k: int| 0 <= o < m.oneofs@.len() && 0 <= k < m.oneofs@[o].fields@.len() ==> #[trigger] m.oneofs@[o].fields@[k]
        < m.fields@.len()
}

/// Whether every index a message stores is in range.
pub open spec fn message_ok(m: MessageDescriptorInner, c: Counts) -> bool {
    &&& message_shape_ok(m, c)
    &&& forall|k: int| 0 <= k < m.extensions@.len() ==> #[trigger] m.extensions@[k] < c.extension
}

/// Whether every index an enum stores is in range.
pub open spec fn enum_ok(e: EnumDescriptorInner, c: Counts) -> bool {
    &&& e.id.file < c.file
    &&& parent_below(e.parent, c)
    &&& forall|k: int| 0 <= k < e.value_numbers@.len() ==> (#[trigger] e.value_numbers@[k]).1 < e.values@.len()
}

/// Whether every index an extension stores is in range.
pub open spec fn extension_ok(x: ExtensionDescriptorInner, c: Counts) -> bool {
    &&& x.id.file < c.file
    &&& parent_below(x.parent, c)
    &&& x.extendee < c.message
    &&& kind_index_below(x.kind, c)
}

/// Whether every index a service stores is in range.
pub open spec fn service_ok(s: ServiceDescriptorInner, c: Counts) -> bool {
    &&& s.id.file < c.file
    &&& forall|k: int| 0 <= k < s.methods@.len() ==> (#[trigger] s.methods@[k]).input < c.message
        && s.methods@[k].output < c.message
}

/// Whether every index a file stores is in range.
pub open spec fn file_ok(f: FileDescriptorInner, c: Counts) -> bool {
    &&& forall|k: int| 0 <= k < f.dependencies@.len() ==> #[trigger] f.dependencies@[k] < c.file
    &&& forall|k: int| 0 <= k < f.transitive_dependencies@.len() ==> #[trigger] f.transitive_dependencies@[k] < c.file
}

/// Whether every name refers to a definition below the counters.
pub open spec fn names_ok(names: Seq<NameEntry>, c: Counts) -> bool {
    forall|i: int| 0 <= i < names.len() ==> kind_below(#[trigger] names[i].def.kind, c) && names[i].def.file < c.file
}

/// Whether every table of a pool refers only to definitions below the counters.
pub open spec fn tables_ok(p: DescriptorPoolInner, c: Counts) -> bool {
    &&& names_ok(p.names@, c)
    &&& forall|j: int| 0 <= j < p.messages@.len() ==> message_ok(#[trigger] p.messages@[j], c)
    &&& forall|j: int| 0 <= j < p.enums@.len() ==> enum_ok(#[trigger] p.enums@[j], c)
    &&& forall|j: int| 0 <= j < p.extensions@.len() ==> extension_ok(#[trigger] p.extensions@[j], c)
    &&& forall|j: int| 0 <= j < p.services@.len() ==> service_ok(#[trigger] p.services@[j], c)
    &&& forall|j: int| 0 <= j < p.files@.len() ==> file_ok(#[trigger] p.files@[j], c)
}

/// The counters a pool's sizes give.
pub open spec fn sizes(p: DescriptorPoolInner) -> Counts {
    Counts {
        file: p.files@.len() as int,
        message: p.messages@.len() as int,
        enum_: p.enums@.len() as int,
        service: p.services@.len() as int,
        extension: p.extensions@.len() as int,
    }
}

/// Whether every index a pool stores refers to something it holds.
pub open spec fn pool_valid(p: DescriptorPoolInner) -> bool {
    tables_ok(p, sizes(p))
}

/// Whether every index a pool stores refers to something it holds, but for
/// the lists of extensions of its messages, which may still name extensions
/// of a batch that failed to be added.
pub open spec fn pool_usable(p: DescriptorPoolInner) -> bool {
    let c = sizes(p);
    &&& names_ok(p.names@, c)
    &&& forall|j: int| 0 <= j < p.messages@.len() ==> message_shape_ok(#[trigger] p.messages@[j], c)
    &&& forall|j: int| 0 <= j < p.enums@.len() ==> enum_ok(#[trigger] p.enums@[j], c)
    &&& forall|j: int| 0 <= j < p.extensions@.len() ==> extension_ok(#[trigger] p.extensions@[j], c)
    &&& forall|j: int| 0 <= j < p.services@.len() ==> service_ok(#[trigger] p.services@[j], c)
    &&& forall|j: int| 0 <= j < p.files@.len() ==> file_ok(#[trigger] p.files@[j], c)
}

/// A valid pool is usable.
pub proof fn lemma_valid_usable(p: DescriptorPoolInner)
    requires
        pool_valid(p),
    ensures
        pool_usable(p),
{
    assert forall|j: int| 0 <= j < p.messages@.len() implies message_shape_ok(#[trigger] p.messages@[j], sizes(p)) by {
        assert(message_ok(p.messages@[j], sizes(p)));
    }
}

/// Validity against counters carries over to larger counters.
pub proof fn lemma_tables_ok_grow(p: DescriptorPoolInner, c: Counts, c2: Counts)
    requires
        tables_ok(p, c),
        crate::visit::counts_grow(c, c2),
    ensures
        tables_ok(p, c2),
{
    assert forall|j: int| 0 <= j < p.messages@.len() implies message_ok(#[trigger] p.messages@[j], c2) by {
        let m = p.messages@[j];
        assert(message_ok(m, c));
        assert forall|k: int| 0 <= k < m.fields@.len() implies kind_index_below(#[trigger] m.fields@[k].kind, c2)
            && (m.fields@[k].oneof matches Some(o) ==> o < m.oneofs@.len()) by {
            assert(kind_index_below(m.fields@[k].kind, c));
        }
        assert forall|k: int| 0 <= k < m.extensions@.len() implies #[trigger] m.extensions@[k] < c2.extension by {
            assert(m.extensions@[k] < c.extension);
        }
    }
    assert forall|j: int| 0 <= j < p.extensions@.len() implies extension_ok(#[trigger] p.extensions@[j], c2) by {
        assert(extension_ok(p.extensions@[j], c));
    }
    assert forall|j: int| 0 <= j < p.services@.len() implies service_ok(#[trigger] p.services@[j], c2) by {
        let s = p.services@[j];
        assert(service_ok(s, c));
        assert forall|k: int| 0 <= k < s.methods@.len() implies (#[trigger] s.methods@[k]).input < c2.message
            && s.methods@[k].output < c2.message by {
            assert(s.methods@[k].input < c.message);
        }
    }
    assert forall|j: int| 0 <= j < p.files@.len() implies file_ok(#[trigger] p.files@[j], c2) by {
        let f = p.files@[j];
        assert(file_ok(f, c));
        assert forall|k: int| 0 <= k < f.dependencies@.len() implies #[trigger] f.dependencies@[k] < c2.file by {
            assert(f.dependencies@[k] < c.file);
        }
        assert forall|k: int| 0 <= k < f.transitive_dependencies@.len() implies #[trigger] f.transitive_dependencies@[k] < c2.file by {
            assert(f.transitive_dependencies@[k] < c.file);
        }
    }
    assert forall|i: int| 0 <= i < p.names@.len() implies kind_below(#[trigger] p.names@[i].def.kind, c2) && p.names@[i].def.file < c2.file by {
        assert(kind_below(p.names@[i].def.kind, c));
    }
}

} // verus!
