//! The decisions of the host functions through which guest code reaches
//! other zomes: whether a call may be made at all, under which index a zome
//! is known, and what a batch of calls answers.

use vstd::prelude::*;

verus! {

/// Whether the host lets guest code use one of its capabilities.
#[derive(Clone, Copy, Debug, PartialEq, Eq, Structural)]
pub enum Permission {
    Allow,
    Deny,
}

/// What the host lets guest code do in the current call, as far as a call to
/// another zome depends on it.
#[derive(Clone, Copy, Debug, PartialEq, Eq, Structural)]
pub struct HostFnAccess {
    /// Reading who the calling agent is.
    pub agent_info: Permission,
    /// Writing to the workspace of the cell.
    pub write_workspace: Permission,
    /// Sending to the network.
    pub write_network: Permission,
}

/// Where a call goes.
#[derive(Clone, Copy, Debug, PartialEq, Eq, Structural)]
pub enum CallTargetKind {
    /// To a cell of the same conductor.
    ConductorCell,
    /// To another agent, over the network.
    NetworkAgent,
}

/// Whether guest code with this access may call this kind of target: it
/// must be allowed to know its agent, and to write where the call goes.
pub open spec fn permitted(target: CallTargetKind, access: HostFnAccess) -> bool {
    access.agent_info is Allow && match target {
        CallTargetKind::ConductorCell => access.write_workspace is Allow,
        CallTargetKind::NetworkAgent => access.write_network is Allow,
    }
}

/// Why a host function refuses to serve guest code.
#[derive(Clone, Debug, PartialEq, Eq)]
pub enum RibosomeError {
    /// No zome of the DNA has this name.
    ZomeNotExists(String),
    /// The host does not let this function of this zome use the host
    /// function that is named last.
    HostFnPermissions(String, String, String),
}

/// Decides whether guest code with this access may call this kind of
/// target.
pub fn call_permitted(target: CallTargetKind, access: HostFnAccess) -> (allowed: bool)
    ensures
        allowed == permitted(target, access),
{
    let may_write = match target {
        CallTargetKind::ConductorCell => access.write_workspace == Permission::Allow,
        CallTargetKind::NetworkAgent => access.write_network == Permission::Allow,
    };
    access.agent_info == Permission::Allow && may_write
}

/// Lets a call pass that the access permits, and refuses any other in the
/// name of the function of the zome that made it.
pub fn check_call(
    target: CallTargetKind,
    access: HostFnAccess,
    zome_name: &String,
    function_name: &String,
) -> (checked: Result<(), RibosomeError>)
    ensures
        permitted(target, access) ==> checked is Ok,
        !permitted(target, access) ==> match checked {
            Err(RibosomeError::HostFnPermissions(zome, function, host_fn)) => zome@ == zome_name@
                && function@ == function_name@ && host_fn@ == "call"@,
            _ => false,
        },
{
    if call_permitted(target, access) {
        Ok(())
    } else {
        Err(
            RibosomeError::HostFnPermissions(
                zome_name.clone(),
                function_name.clone(),
                "call".to_owned(),
            ),
        )
    }
}

/// Whether `i` is the first position of `results` that holds an error.
pub open spec fn first_error_at<T, E>(results: Seq<Result<T, E>>, i: int) -> bool {
    &&& 0 <= i < results.len()
    &&& results[i] is Err
    &&& forall|j: int| 0 <= j < i ==> (#[trigger] results[j]) is Ok
}

/// Gathers the answers of a batch of calls: all of them in their order where
/// every call answered, else the error of the first call that failed.
pub fn collect_results<T, E>(results: Vec<Result<T, E>>) -> (collected: Result<Vec<T>, E>)
    ensures
        match collected {
            Ok(values) => values@.len() == results@.len() && forall|i: int|
                0 <= i < results@.len() ==> #[trigger] results@[i] == Ok::<T, E>(values@[i]),
            Err(error) => exists|i: int|
                first_error_at(results@, i) && #[trigger] results@[i] == Err::<T, E>(error),
        },
{
    let ghost all = results@;
    let mut values: Vec<T> = Vec::new();
    for result in iter: results
        invariant
            iter.seq() == all,
            values@.len() == iter.index(),
            forall|i: int| 0 <= i < iter.index() ==> #[trigger] all[i] == Ok::<T, E>(values@[i]),
    {
        match result {
            Ok(value) => {
                values.push(value);
            },
            Err(error) => {
                assert(first_error_at(all, iter.index() as int));
                return Err(error);
            },
        }
    }
    Ok(values)
}

/// Whether `i` is the first position of `zomes` that holds this name.
pub open spec fn first_named_at(zomes: Seq<String>, zome_name: Seq<char>, i: int) -> bool {
    &&& 0 <= i < zomes.len()
    &&& zomes[i]@ == zome_name
    &&& forall|j: int| 0 <= j < i ==> (#[trigger] zomes[j])@ != zome_name
}

/// Looks a zome up by its name among the zomes of a DNA and gives the index
/// by which the zome is known: the first position that holds the name. An
/// index is one byte, so positions count modulo 256. A name that no zome
/// has is an error.
pub fn zome_id(zomes: &Vec<String>, zome_name: &String) -> (id: Result<u8, RibosomeError>)
    ensures
        match id {
            Ok(id) => exists|i: int|
                #[trigger] first_named_at(zomes@, zome_name@, i) && id == i % 256,
            Err(RibosomeError::ZomeNotExists(missing)) => missing@ == zome_name@ && forall|i: int|
                0 <= i < zomes@.len() ==> (#[trigger] zomes@[i])@ != zome_name@,
            Err(_) => false,
        },
{
    let mut i: usize = 0;
    while i < zomes.len()
        invariant
            i <= zomes.len(),
            forall|j: int| 0 <= j < i ==> (#[trigger] zomes@[j])@ != zome_name@,
        decreases zomes.len() - i,
    {
        if zomes[i] == *zome_name {
            assert(first_named_at(zomes@, zome_name@, i as int));
            return Ok((i % 256) as u8);
        }
        i += 1;
    }
    Err(RibosomeError::ZomeNotExists(zome_name.clone()))
}

} // verus!
