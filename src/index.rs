use vstd::prelude::*;
use crate::format::pairs_view;
use crate::provider::{ProviderError, TranslationProvider, role_text};
use crate::schema::Role;

verus! {

/// The `(id, display)` pair of each entity, in input order.
pub open spec fn index_of(ps: Seq<TranslationProvider>) -> Seq<(Seq<char>, Seq<char>)> {
    Seq::new(
        ps.len(),
        |i: int| (role_text(ps[i]@, Role::Id).unwrap(), role_text(ps[i]@, Role::Display).unwrap()),
    )
}

pub open spec fn all_indexable(ps: Seq<TranslationProvider>) -> bool {
    forall|i: int| 0 <= i < ps.len() ==> (#[trigger] ps[i]@).schema.roles is Some
}

/// Lists the `(id, display)` pair of each entity, in the order given, with no
/// sorting or deduplication. Fails when an entity's schema has no roles.
pub fn create_provider_index(providers: &Vec<TranslationProvider>) -> (r: Result<
    Vec<(String, String)>,
    ProviderError,
>)
    requires
        forall|i: int| 0 <= i < providers.len() ==> (#[trigger] providers[i]).wf(),
    ensures
        all_indexable(providers@) <==> r is Ok,
        r matches Ok(v) ==> pairs_view(v@) == index_of(providers@),
        r matches Err(e) ==> e is RoleNotConfigured,
{
    let mut indexes: Vec<(String, String)> = Vec::new();
    let mut i: usize = 0;
    while i < providers.len()
        invariant
            i <= providers.len(),
            forall|k: int| 0 <= k < providers.len() ==> (#[trigger] providers[k]).wf(),
            forall|k: int| 0 <= k < i ==> (#[trigger] providers@[k]@).schema.roles is Some,
            pairs_view(indexes@) =~= index_of(providers@).take(i as int),
        decreases providers.len() - i,
    {
        let p = &providers[i];
        let id = p.reserved_id();
        let display = p.reserved_display();
        match (id, display) {
            (Ok(a), Ok(b)) => {
                let ghost old_v = pairs_view(indexes@);
                indexes.push((a, b));
                assert(pairs_view(indexes@) =~= old_v.push((a@, b@)));
            },
            _ => {
                assert(!all_indexable(providers@));
                return Err(ProviderError::RoleNotConfigured);
            },
        }
        i += 1;
        assert(pairs_view(indexes@) =~= index_of(providers@).take(i as int));
    }
    assert(index_of(providers@).take(i as int) =~= index_of(providers@));
    Ok(indexes)
}

} // verus!
