//! Where the descriptors of a program lead once its redirections are made.
//!
//! Redirections are made one after another, in the order in which they were
//! written, each on the descriptors as the ones before it left them. So a
//! descriptor that is rebound twice leads where the second request sent it,
//! and `>out 2>&1` sends both descriptors to the file while `2>&1 >out` sends
//! only the first there.

use vstd::prelude::*;

use crate::shell::resolver::{OpenMode, RedirectionModel, TargetModel};

verus! {

/// What a descriptor leads to.
pub enum Binding {
    /// To what this descriptor of the shell leads.
    Inherited(int),
    /// To a file that was opened for the program.
    File { path: Seq<char>, mode: OpenMode },
}

/// What `descriptor` leads to in `table`. A descriptor that the table does
/// not hold is as the shell has it.
pub open spec fn bound(table: Map<int, Binding>, descriptor: int) -> Binding {
    if table.contains_key(descriptor) {
        table[descriptor]
    } else {
        Binding::Inherited(descriptor)
    }
}

/// What a target stands for at the moment its redirection is made.
pub open spec fn binding_of(table: Map<int, Binding>, target: TargetModel) -> Binding {
    match target {
        TargetModel::Descriptor(descriptor) => bound(table, descriptor),
        TargetModel::File { path, mode } => Binding::File { path, mode },
    }
}

/// The descriptors after one redirection is made.
pub open spec fn rebind(table: Map<int, Binding>, request: RedirectionModel) -> Map<int, Binding> {
    table.insert(request.source, binding_of(table, request.target))
}

/// The descriptors after the redirections of `requests` are made, the first
/// of them first.
pub open spec fn descriptors(requests: Seq<RedirectionModel>) -> Map<int, Binding>
    decreases requests.len(),
{
    if requests.len() == 0 {
        Map::empty()
    } else {
        rebind(descriptors(requests.drop_last()), requests.last())
    }
}

/// A descriptor that no request rebinds leads where it led in the shell.
pub proof fn lemma_untouched_descriptor(requests: Seq<RedirectionModel>, descriptor: int)
    requires
        forall|i: int| 0 <= i < requests.len() ==> requests[i].source != descriptor,
    ensures
        bound(descriptors(requests), descriptor) == Binding::Inherited(descriptor),
    decreases requests.len(),
{
    if requests.len() > 0 {
        let earlier = requests.drop_last();
        assert forall|i: int| 0 <= i < earlier.len() implies earlier[i].source != descriptor by {
            assert(earlier[i] == requests[i]);
        }
        lemma_untouched_descriptor(earlier, descriptor);
    }
}

/// The last request for a descriptor wins: the descriptor leads where that
/// request sent it when it was made, whatever earlier requests asked for.
pub proof fn lemma_last_request_wins(requests: Seq<RedirectionModel>, last: int)
    requires
        0 <= last < requests.len(),
        forall|i: int| last < i < requests.len() ==> requests[i].source != requests[last].source,
    ensures
        bound(descriptors(requests), requests[last].source) == binding_of(
            descriptors(requests.take(last)),
            requests[last].target,
        ),
    decreases requests.len(),
{
    let earlier = requests.drop_last();
    if last == requests.len() - 1 {
        assert(earlier == requests.take(last));
    } else {
        assert(earlier[last] == requests[last]);
        assert forall|i: int| last < i < earlier.len() implies earlier[i].source
            != earlier[last].source by {
            assert(earlier[i] == requests[i]);
        }
        lemma_last_request_wins(earlier, last);
        assert(earlier.take(last) == requests.take(last));
    }
}

} // verus!
