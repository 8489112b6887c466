use chain_runtime::host_call::{
    call_permitted, check_call, collect_results, zome_id, CallTargetKind, HostFnAccess,
    Permission, RibosomeError,
};
use chain_runtime::host_call::CallTargetKind::{ConductorCell, NetworkAgent};
use chain_runtime::host_call::Permission::{Allow, Deny};

fn access(agent_info: Permission, workspace: Permission, network: Permission) -> HostFnAccess {
    HostFnAccess {
        agent_info,
        write_workspace: workspace,
        write_network: network,
    }
}

#[test]
fn a_call_needs_the_agent_and_its_own_way_out() {
    assert!(call_permitted(ConductorCell, access(Allow, Allow, Deny)));
    assert!(call_permitted(NetworkAgent, access(Allow, Deny, Allow)));
    assert!(call_permitted(ConductorCell, access(Allow, Allow, Allow)));
    assert!(!call_permitted(ConductorCell, access(Allow, Deny, Allow)));
    assert!(!call_permitted(NetworkAgent, access(Allow, Allow, Deny)));
    assert!(!call_permitted(ConductorCell, access(Deny, Allow, Allow)));
    assert!(!call_permitted(NetworkAgent, access(Deny, Allow, Allow)));
    assert!(!call_permitted(NetworkAgent, access(Deny, Deny, Deny)));
}

#[test]
fn a_refused_call_names_its_caller() {
    let zome = "profiles".to_string();
    let function = "whoami".to_string();
    assert_eq!(
        check_call(
            CallTargetKind::NetworkAgent,
            access(Allow, Allow, Deny),
            &zome,
            &function
        ),
        Err(RibosomeError::HostFnPermissions(
            "profiles".to_string(),
            "whoami".to_string(),
            "call".to_string()
        ))
    );
    assert_eq!(
        check_call(
            CallTargetKind::NetworkAgent,
            access(Allow, Deny, Allow),
            &zome,
            &function
        ),
        Ok(())
    );
}

#[test]
fn collect_results_returns_all_answers_in_order() {
    let results: Vec<Result<u32, String>> = vec![Ok(3), Ok(1), Ok(2)];
    assert_eq!(collect_results(results), Ok(vec![3, 1, 2]));
    let none: Vec<Result<u32, String>> = Vec::new();
    assert_eq!(collect_results(none), Ok(Vec::new()));
}

#[test]
fn collect_results_returns_the_first_error() {
    let results: Vec<Result<u32, String>> = vec![
        Ok(3),
        Err("first".to_string()),
        Ok(2),
        Err("second".to_string()),
    ];
    assert_eq!(collect_results(results), Err("first".to_string()));
}

#[test]
fn zome_id_is_the_first_position_of_the_name() {
    let zomes = vec![
        "a".to_string(),
        "b".to_string(),
        "c".to_string(),
        "b".to_string(),
    ];
    assert_eq!(zome_id(&zomes, &"a".to_string()), Ok(0));
    assert_eq!(zome_id(&zomes, &"b".to_string()), Ok(1));
    assert_eq!(zome_id(&zomes, &"c".to_string()), Ok(2));
}

#[test]
fn zome_id_of_an_unknown_name_is_an_error() {
    let zomes = vec!["a".to_string()];
    assert_eq!(
        zome_id(&zomes, &"z".to_string()),
        Err(RibosomeError::ZomeNotExists("z".to_string()))
    );
    assert_eq!(
        zome_id(&Vec::new(), &"a".to_string()),
        Err(RibosomeError::ZomeNotExists("a".to_string()))
    );
}

#[test]
fn zome_id_counts_in_one_byte() {
    let mut zomes: Vec<String> = (0..300).map(|i| format!("zome{}", i)).collect();
    assert_eq!(zome_id(&zomes, &"zome255".to_string()), Ok(255));
    assert_eq!(zome_id(&zomes, &"zome256".to_string()), Ok(0));
    assert_eq!(zome_id(&zomes, &"zome299".to_string()), Ok(43));
    zomes.truncate(10);
    assert_eq!(zome_id(&zomes, &"zome9".to_string()), Ok(9));
}
