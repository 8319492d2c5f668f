use yb_stats::collector::Collected;
use yb_stats::diff::{diff, DiffKind};
use yb_stats::masters::{
    AllMasters, AllStoredMasters, CloudInfo, HttpAddresses, InstanceId, MasterChanges, MasterError,
    Masters, PrivateRpcAddresses, Registration, SnapshotDiffBTreeMapsMasters,
    SnapshotDiffStoredMasters, StoredHttpAddresses, StoredMasterError, StoredMasters,
    StoredRpcAddresses,
};
use yb_stats::snapshot::Timestamp;

fn at(seconds: i64) -> Timestamp {
    Timestamp { seconds, nanos: 0 }
}

fn reported_master(uuid: &str, host: &str, seqno: i64, role: &str) -> Masters {
    Masters {
        error: None,
        instance_id: InstanceId {
            instance_seqno: seqno,
            permanent_uuid: uuid.to_string(),
            start_time_us: Some(seqno),
        },
        registration: Registration {
            private_rpc_addresses: vec![PrivateRpcAddresses { host: host.to_string(), port: 7100 }],
            http_addresses: Some(vec![HttpAddresses { host: host.to_string(), port: 7000 }]),
            cloud_info: Some(CloudInfo {
                placement_cloud: "local".to_string(),
                placement_region: "local".to_string(),
                placement_zone: "local".to_string(),
            }),
            placement_uuid: Some(String::new()),
        },
        role: Some(role.to_string()),
    }
}

fn cluster() -> AllMasters {
    AllMasters {
        masters: vec![
            reported_master("3fc1141619304cffa2f0a345d37a51c2", "yb-1.local", 1657972299220554, "LEADER"),
            reported_master("f32d67fbf54545b18d3aef17fee4032b", "yb-2.local", 1657972325360336, "FOLLOWER"),
            reported_master("b44e60f6a7f54aae98de54ee2e00736d", "yb-3.local", 1657972347087226, "FOLLOWER"),
        ],
    }
}

fn stored(endpoint: &str, uuid: &str, seqno: i64, role: &str) -> StoredMasters {
    StoredMasters {
        hostname_port: endpoint.to_string(),
        timestamp: at(1),
        instance_permanent_uuid: uuid.to_string(),
        instance_instance_seqno: seqno,
        start_time_us: 1000,
        registration_cloud_placement_cloud: "local".to_string(),
        registration_cloud_placement_region: "region".to_string(),
        registration_cloud_placement_zone: "zone".to_string(),
        registration_placement_uuid: "placement".to_string(),
        role: role.to_string(),
    }
}

fn rpc(endpoint: &str, uuid: &str, host: &str, port: &str) -> StoredRpcAddresses {
    StoredRpcAddresses {
        hostname_port: endpoint.to_string(),
        timestamp: at(1),
        instance_permanent_uuid: uuid.to_string(),
        host: host.to_string(),
        port: port.to_string(),
    }
}

fn http(endpoint: &str, uuid: &str, host: &str, port: &str) -> StoredHttpAddresses {
    StoredHttpAddresses {
        hostname_port: endpoint.to_string(),
        timestamp: at(1),
        instance_permanent_uuid: uuid.to_string(),
        host: host.to_string(),
        port: port.to_string(),
    }
}

fn snapshot(endpoints: &[&str], masters: &[(&str, i64, &str)]) -> AllStoredMasters {
    let mut all = AllStoredMasters::new();
    for endpoint in endpoints {
        for (uuid, seqno, role) in masters {
            all.stored_masters.push(stored(endpoint, uuid, *seqno, role));
            all.stored_rpc_addresses.push(rpc(endpoint, uuid, &format!("{}.local", uuid), "7100"));
            all.stored_http_addresses.push(http(endpoint, uuid, &format!("{}.local", uuid), "7000"));
        }
    }
    all
}

#[test]
fn split_into_vectors_keeps_a_row_of_each_master_and_address() {
    let mut all = AllStoredMasters::new();
    all.split_into_vectors(cluster(), "yb-1.local:7000", at(42));
    assert_eq!(all.stored_masters.len(), 3);
    assert_eq!(all.stored_rpc_addresses.len(), 3);
    assert_eq!(all.stored_http_addresses.len(), 3);
    assert_eq!(all.stored_master_error.len(), 0);
    let first = &all.stored_masters[0];
    assert_eq!(first.hostname_port, "yb-1.local:7000");
    assert_eq!(first.timestamp, at(42));
    assert_eq!(first.instance_permanent_uuid, "3fc1141619304cffa2f0a345d37a51c2");
    assert_eq!(first.instance_instance_seqno, 1657972299220554);
    assert_eq!(first.start_time_us, 1657972299220554);
    assert_eq!(first.registration_cloud_placement_cloud, "local");
    assert_eq!(first.registration_cloud_placement_region, "local");
    assert_eq!(first.registration_cloud_placement_zone, "local");
    assert_eq!(first.registration_placement_uuid, "");
    assert_eq!(first.role, "LEADER");
    assert_eq!(all.stored_masters[2].role, "FOLLOWER");
    let address = &all.stored_rpc_addresses[1];
    assert_eq!(address.hostname_port, "yb-1.local:7000");
    assert_eq!(address.timestamp, at(42));
    assert_eq!(address.instance_permanent_uuid, "f32d67fbf54545b18d3aef17fee4032b");
    assert_eq!(address.host, "yb-2.local");
    assert_eq!(address.port, "7100");
    assert_eq!(all.stored_http_addresses[2].host, "yb-3.local");
    assert_eq!(all.stored_http_addresses[2].port, "7000");
}

#[test]
fn split_into_vectors_fills_in_what_the_endpoint_left_out() {
    let bare = Masters {
        error: Some(MasterError {
            code: "NetworkError".to_string(),
            message: "unreachable".to_string(),
            posix_code: 111,
            source_file: "proxy.cc".to_string(),
            source_line: 231,
            errors: "Connection refused".to_string(),
        }),
        instance_id: InstanceId {
            instance_seqno: 0,
            permanent_uuid: "uuid-9".to_string(),
            start_time_us: None,
        },
        registration: Registration {
            private_rpc_addresses: vec![
                PrivateRpcAddresses { host: "a".to_string(), port: 7100 },
                PrivateRpcAddresses { host: "b".to_string(), port: -1 },
            ],
            http_addresses: None,
            cloud_info: None,
            placement_uuid: None,
        },
        role: None,
    };
    let mut all = AllStoredMasters::new();
    all.stored_masters.push(stored("old:7000", "kept", 1, "LEADER"));
    all.split_into_vectors(AllMasters { masters: vec![bare] }, "yb-2.local:7000", at(7));
    assert_eq!(all.stored_masters.len(), 2);
    assert_eq!(all.stored_masters[0].instance_permanent_uuid, "kept");
    let row = &all.stored_masters[1];
    assert_eq!(row.start_time_us, 0);
    assert_eq!(row.registration_cloud_placement_cloud, "Unset");
    assert_eq!(row.registration_cloud_placement_region, "Unset");
    assert_eq!(row.registration_cloud_placement_zone, "Unset");
    assert_eq!(row.registration_placement_uuid, "Unset");
    assert_eq!(row.role, "Unnknown");
    assert_eq!(all.stored_http_addresses.len(), 0);
    assert_eq!(all.stored_rpc_addresses.len(), 2);
    assert_eq!(all.stored_rpc_addresses[0].port, "7100");
    assert_eq!(all.stored_rpc_addresses[1].host, "b");
    assert_eq!(all.stored_rpc_addresses[1].port, "-1");
    assert_eq!(all.stored_master_error.len(), 1);
    let error = &all.stored_master_error[0];
    assert_eq!(error.hostname_port, "yb-2.local:7000");
    assert_eq!(error.timestamp, at(7));
    assert_eq!(error.instance_permanent_uuid, "uuid-9");
    assert_eq!(error.code, "NetworkError");
    assert_eq!(error.message, "unreachable");
    assert_eq!(error.posix_code, 111);
    assert_eq!(error.source_file, "proxy.cc");
    assert_eq!(error.source_line, 231);
    assert_eq!(error.errors, "Connection refused");
}

#[test]
fn read_masters_gathers_the_rows_of_every_report() {
    let reports = vec![
        Collected { hostname_port: "yb-1.local:7000".to_string(), timestamp: at(1), payload: cluster() },
        Collected {
            hostname_port: "yb-2.local:7000".to_string(),
            timestamp: at(2),
            payload: AllMasters { masters: Vec::new() },
        },
        Collected { hostname_port: "yb-3.local:7000".to_string(), timestamp: at(3), payload: cluster() },
    ];
    let all = AllStoredMasters::read_masters(reports);
    assert_eq!(all.stored_masters.len(), 6);
    assert_eq!(all.stored_rpc_addresses.len(), 6);
    assert_eq!(all.stored_http_addresses.len(), 6);
    assert_eq!(all.stored_masters[0].hostname_port, "yb-1.local:7000");
    assert_eq!(all.stored_masters[0].timestamp, at(1));
    assert_eq!(all.stored_masters[3].hostname_port, "yb-3.local:7000");
    assert_eq!(all.stored_masters[3].timestamp, at(3));
    assert_eq!(all.stored_masters[3].instance_permanent_uuid, "3fc1141619304cffa2f0a345d37a51c2");
    assert_eq!(AllStoredMasters::read_masters(Vec::new()).stored_masters.len(), 0);
}

#[test]
fn masters_are_recognised_by_their_permanent_uuid() {
    let first = vec![stored("a:7000", "u1", 100, "FOLLOWER")];
    let second = vec![stored("a:7000", "u1", 105, "LEADER"), stored("a:7000", "u2", 1, "FOLLOWER")];
    let entries = diff(first, second);
    let summary: Vec<(String, DiffKind)> =
        entries.iter().map(|e| (e.identity.clone(), e.kind())).collect();
    assert_eq!(
        summary,
        vec![("u1".to_string(), DiffKind::Changed), ("u2".to_string(), DiffKind::Added)]
    );
}

#[test]
fn the_placement_uuid_is_compared_and_the_endpoint_is_not() {
    let mut moved = stored("b:7000", "u1", 100, "LEADER");
    moved.timestamp = at(999);
    assert_eq!(diff(vec![stored("a:7000", "u1", 100, "LEADER")], vec![moved]).len(), 0);
    let mut placed = stored("a:7000", "u1", 100, "LEADER");
    placed.registration_placement_uuid = "elsewhere".to_string();
    let entries = diff(vec![stored("a:7000", "u1", 100, "LEADER")], vec![placed]);
    assert_eq!(entries.len(), 1);
    assert_eq!(entries[0].kind(), DiffKind::Changed);
    assert_eq!(entries[0].first.as_ref().unwrap().registration_placement_uuid, "placement");
    assert_eq!(entries[0].second.as_ref().unwrap().registration_placement_uuid, "elsewhere");
    let mut zone = stored("a:7000", "u1", 100, "LEADER");
    zone.registration_cloud_placement_zone = "other".to_string();
    assert_eq!(diff(vec![stored("a:7000", "u1", 100, "LEADER")], vec![zone]).len(), 1);
    let mut started = stored("a:7000", "u1", 100, "LEADER");
    started.start_time_us = 2000;
    assert_eq!(diff(vec![stored("a:7000", "u1", 100, "LEADER")], vec![started]).len(), 1);
}

#[test]
fn a_master_whose_placement_uuid_changed_is_shown_as_changed() {
    let row = |placement: &str| {
        let mut all = AllStoredMasters::new();
        let mut master = stored("h:7000", "u1", 1, "LEADER");
        master.registration_placement_uuid = placement.to_string();
        all.stored_masters.push(master);
        all
    };
    let mut d = SnapshotDiffBTreeMapsMasters::new();
    d.first_snapshot(row("p1"), "h:7000".to_string());
    d.second_snapshot(row("p2"), "h:7000".to_string());
    let blocks = d.print().unwrap();
    assert_eq!(blocks.len(), 1);
    assert_eq!(blocks[0].permanent_uuid, "u1");
    assert_eq!(blocks[0].kind, DiffKind::Changed);
    assert_eq!(blocks[0].row.first_registration_placement_uuid, "p1");
    assert_eq!(blocks[0].row.second_registration_placement_uuid, "p2");
    assert_eq!(
        blocks[0].changes,
        MasterChanges {
            role: false,
            cloud: false,
            region: false,
            zone: false,
            placement_uuid: true,
            seqno: false,
            start_time: false
        }
    );
}

#[test]
fn the_sides_of_a_diff_row() {
    let gone = SnapshotDiffStoredMasters::first_snapshot(stored("a:7000", "u1", 100, "LEADER"));
    assert_eq!(gone.first_instance_seqno, 100);
    assert_eq!(gone.first_start_time_us, 1000);
    assert_eq!(gone.first_registration_cloud_placement_cloud, "local");
    assert_eq!(gone.first_registration_cloud_placement_region, "region");
    assert_eq!(gone.first_registration_cloud_placement_zone, "zone");
    assert_eq!(gone.first_registration_placement_uuid, "placement");
    assert_eq!(gone.first_role, "LEADER");
    assert_eq!(gone.second_instance_seqno, 0);
    assert_eq!(gone.second_start_time_us, 0);
    assert_eq!(gone.second_registration_cloud_placement_cloud, "");
    assert_eq!(gone.second_registration_cloud_placement_region, "");
    assert_eq!(gone.second_registration_cloud_placement_zone, "");
    assert_eq!(gone.second_registration_placement_uuid, "");
    assert_eq!(gone.second_role, "");

    let new = SnapshotDiffStoredMasters::second_snapshot_new(stored("a:7000", "u1", 7, "FOLLOWER"));
    assert_eq!(new.first_instance_seqno, 0);
    assert_eq!(new.first_role, "");
    assert_eq!(new.first_registration_cloud_placement_zone, "");
    assert_eq!(new.second_instance_seqno, 7);
    assert_eq!(new.second_start_time_us, 1000);
    assert_eq!(new.second_registration_cloud_placement_region, "region");
    assert_eq!(new.second_registration_placement_uuid, "placement");
    assert_eq!(new.second_role, "FOLLOWER");

    let both =
        SnapshotDiffStoredMasters::second_snapshot_existing(&gone, stored("a:7000", "u1", 105, "FOLLOWER"));
    assert_eq!(both.first_instance_seqno, 100);
    assert_eq!(both.first_role, "LEADER");
    assert_eq!(both.first_registration_cloud_placement_cloud, "local");
    assert_eq!(both.second_instance_seqno, 105);
    assert_eq!(both.second_role, "FOLLOWER");
    assert_eq!(
        both.changes(),
        MasterChanges {
            role: true,
            cloud: false,
            region: false,
            zone: false,
            placement_uuid: false,
            seqno: true,
            start_time: false
        }
    );
    assert_eq!(
        gone.changes(),
        MasterChanges {
            role: true,
            cloud: true,
            region: true,
            zone: true,
            placement_uuid: true,
            seqno: true,
            start_time: true
        }
    );
}

#[test]
fn the_diff_of_two_snapshots_as_the_leader_reports_them() {
    let begin = snapshot(&["yb-1:7000", "yb-2:7000"], &[("u1", 100, "FOLLOWER"), ("u3", 5, "LEADER")]);
    let end = snapshot(
        &["yb-1:7000", "yb-2:7000"],
        &[("u1", 105, "LEADER"), ("u2", 1, "FOLLOWER")],
    );
    let d = SnapshotDiffBTreeMapsMasters::snapshot_diff(
        begin,
        "yb-2:7000".to_string(),
        end,
        "yb-1:7000".to_string(),
    );
    assert!(d.master_found);
    assert_eq!(d.first_http_addresses.len(), 2);
    assert_eq!(d.first_http_addresses[0].permanent_uuid, "u1");
    assert_eq!(d.first_http_addresses[0].hostname_port, "u1.local:7000");
    assert_eq!(d.second_rpc_addresses.len(), 2);
    assert_eq!(d.second_rpc_addresses[1].permanent_uuid, "u2");
    assert_eq!(d.second_rpc_addresses[1].hostname_port, "u2.local:7100");
    let blocks = d.print().unwrap();
    assert_eq!(blocks.len(), 3);

    assert_eq!(blocks[0].permanent_uuid, "u1");
    assert_eq!(blocks[0].kind, DiffKind::Changed);
    assert_eq!(blocks[0].row.first_role, "FOLLOWER");
    assert_eq!(blocks[0].row.second_role, "LEADER");
    assert_eq!(blocks[0].row.first_instance_seqno, 100);
    assert_eq!(blocks[0].row.second_instance_seqno, 105);
    assert_eq!(
        blocks[0].changes,
        MasterChanges {
            role: true,
            cloud: false,
            region: false,
            zone: false,
            placement_uuid: false,
            seqno: true,
            start_time: false
        }
    );
    assert_eq!(blocks[0].http_addresses, vec!["u1.local:7000"]);
    assert_eq!(blocks[0].rpc_addresses, vec!["u1.local:7100"]);

    assert_eq!(blocks[1].permanent_uuid, "u2");
    assert_eq!(blocks[1].kind, DiffKind::Added);
    assert_eq!(blocks[1].row.first_instance_seqno, 0);
    assert_eq!(blocks[1].row.first_role, "");
    assert_eq!(blocks[1].row.second_instance_seqno, 1);
    assert_eq!(blocks[1].row.second_role, "FOLLOWER");
    assert_eq!(blocks[1].http_addresses, vec!["u2.local:7000"]);
    assert_eq!(blocks[1].rpc_addresses, vec!["u2.local:7100"]);

    assert_eq!(blocks[2].permanent_uuid, "u3");
    assert_eq!(blocks[2].kind, DiffKind::Removed);
    assert_eq!(blocks[2].row.first_instance_seqno, 5);
    assert_eq!(blocks[2].row.first_role, "LEADER");
    assert_eq!(blocks[2].row.second_instance_seqno, 0);
    assert_eq!(blocks[2].row.second_role, "");
    assert_eq!(blocks[2].row.second_registration_cloud_placement_cloud, "");
    assert_eq!(blocks[2].http_addresses, vec!["u3.local:7000"]);
    assert_eq!(blocks[2].rpc_addresses, vec!["u3.local:7100"]);
}

#[test]
fn the_diff_of_a_snapshot_with_itself_shows_nothing() {
    let round = || snapshot(&["yb-1:7000"], &[("u1", 100, "FOLLOWER"), ("u3", 5, "LEADER")]);
    let d = SnapshotDiffBTreeMapsMasters::snapshot_diff(
        round(),
        "yb-1:7000".to_string(),
        round(),
        "yb-1:7000".to_string(),
    );
    assert_eq!(d.print().unwrap().len(), 0);
}

#[test]
fn without_a_leader_nothing_is_taken_in_and_nothing_is_shown() {
    let mut d = SnapshotDiffBTreeMapsMasters::new();
    assert!(!d.master_found);
    let collided =
        d.first_snapshot(snapshot(&["yb-1:7000"], &[("u1", 1, "LEADER")]), "yb-1:7000".to_string());
    assert_eq!(collided.len(), 0);
    assert!(d.master_found);
    let collided = d.second_snapshot(snapshot(&["yb-1:7000"], &[("u2", 1, "LEADER")]), String::new());
    assert_eq!(collided.len(), 0);
    assert!(!d.master_found);
    assert_eq!(d.first_http_addresses.len(), 1);
    assert_eq!(d.second_http_addresses.len(), 0);
    assert_eq!(d.second_rpc_addresses.len(), 0);
    assert!(d.print().is_none());

    let mut d = SnapshotDiffBTreeMapsMasters::new();
    d.first_snapshot(snapshot(&["yb-1:7000"], &[("u1", 1, "LEADER")]), String::new());
    d.second_snapshot(snapshot(&["yb-1:7000"], &[("u1", 1, "LEADER")]), "yb-1:7000".to_string());
    let blocks = d.print().unwrap();
    assert_eq!(blocks.len(), 1);
    assert_eq!(blocks[0].kind, DiffKind::Added);
}

#[test]
fn an_address_is_taken_in_once() {
    let mut all = snapshot(&["yb-1:7000"], &[("u1", 1, "LEADER")]);
    all.stored_http_addresses.push(http("yb-1:7000", "u1", "u1.local", "7000"));
    all.stored_http_addresses.push(http("yb-1:7000", "u1", "u1.local", "7001"));
    all.stored_http_addresses.push(http("yb-2:7000", "u1", "other", "7000"));
    all.stored_rpc_addresses.push(rpc("yb-1:7000", "u2", "u1.local", "7100"));
    let mut d = SnapshotDiffBTreeMapsMasters::new();
    d.first_snapshot(all, "yb-1:7000".to_string());
    let shown: Vec<(String, String)> = d
        .first_http_addresses
        .iter()
        .map(|a| (a.permanent_uuid.clone(), a.hostname_port.clone()))
        .collect();
    assert_eq!(
        shown,
        vec![
            ("u1".to_string(), "u1.local:7000".to_string()),
            ("u1".to_string(), "u1.local:7001".to_string())
        ]
    );
    let shown: Vec<(String, String)> = d
        .first_rpc_addresses
        .iter()
        .map(|a| (a.permanent_uuid.clone(), a.hostname_port.clone()))
        .collect();
    assert_eq!(
        shown,
        vec![
            ("u1".to_string(), "u1.local:7100".to_string()),
            ("u2".to_string(), "u1.local:7100".to_string())
        ]
    );
}

#[test]
fn print_shows_the_masters_as_the_leader_reports_them() {
    let mut all = snapshot(&["yb-1:7000", "yb-2:7000"], &[("u1", 1, "LEADER"), ("u2", 2, "FOLLOWER")]);
    all.stored_master_error.push(StoredMasterError {
        hostname_port: "yb-2:7000".to_string(),
        timestamp: at(1),
        instance_permanent_uuid: "u2".to_string(),
        code: "NetworkError".to_string(),
        message: "unreachable".to_string(),
        posix_code: 111,
        source_file: "proxy.cc".to_string(),
        source_line: 231,
        errors: "refused".to_string(),
    });
    let blocks = all.print(&"yb-2:7000".to_string(), false);
    assert_eq!(blocks.len(), 2);
    assert!(!blocks[0].details);
    assert_eq!(blocks[0].master.hostname_port, "yb-2:7000");
    assert_eq!(blocks[0].master.instance_permanent_uuid, "u1");
    assert_eq!(blocks[0].master.role, "LEADER");
    assert_eq!(blocks[0].master.instance_instance_seqno, 1);
    assert_eq!(blocks[0].rpc_addresses, vec!["u1.local:7100"]);
    assert_eq!(blocks[0].http_addresses, vec!["u1.local:7000"]);
    assert_eq!(blocks[0].errors.len(), 0);
    assert_eq!(blocks[1].master.instance_permanent_uuid, "u2");
    assert_eq!(blocks[1].rpc_addresses, vec!["u2.local:7100"]);
    assert_eq!(blocks[1].errors.len(), 1);
    assert_eq!(blocks[1].errors[0].code, "NetworkError");
    assert_eq!(blocks[1].errors[0].posix_code, 111);

    let detailed = all.print(&"yb-2:7000".to_string(), true);
    assert_eq!(detailed.len(), 4);
    assert!(detailed[0].details);
    assert_eq!(detailed[0].master.hostname_port, "yb-1:7000");
    assert_eq!(detailed[1].errors.len(), 0);
    assert_eq!(detailed[3].master.hostname_port, "yb-2:7000");
    assert_eq!(detailed[3].errors.len(), 1);

    assert_eq!(all.print(&"yb-9:7000".to_string(), false).len(), 0);
}

#[test]
fn the_leader_is_the_first_endpoint_that_answers_ok() {
    use_leader();
}

fn use_leader() {
    let answer = |endpoint: &str, status: &str| yb_stats::masters::StoredIsLeader {
        hostname_port: endpoint.to_string(),
        timestamp: at(1),
        status: status.to_string(),
    };
    let answers = vec![
        answer("yb-1:7000", "SERVICE_UNAVAILABLE"),
        answer("yb-2:7000", "OK"),
        answer("yb-3:7000", "OK"),
    ];
    assert_eq!(yb_stats::masters::return_leader(&answers), "yb-2:7000");
    let none = vec![answer("yb-1:7000", ""), answer("yb-2:7000", "ok"), answer("yb-3:7000", "OKAY")];
    assert_eq!(yb_stats::masters::return_leader(&none), "");
    assert_eq!(yb_stats::masters::return_leader(&Vec::new()), "");
    let unnamed = vec![answer("", "OK"), answer("yb-3:7000", "OK")];
    assert_eq!(yb_stats::masters::return_leader(&unnamed), "yb-3:7000");
}

#[test]
fn a_master_reported_twice_is_named_and_its_last_row_stands() {
    let mut all = AllStoredMasters::new();
    all.stored_masters.push(stored("yb-1:7000", "u1", 1, "FOLLOWER"));
    all.stored_masters.push(stored("yb-1:7000", "u2", 2, "FOLLOWER"));
    all.stored_masters.push(stored("yb-2:7000", "u2", 9, "LEADER"));
    all.stored_masters.push(stored("yb-1:7000", "u1", 3, "LEADER"));
    all.stored_masters.push(stored("yb-1:7000", "u1", 4, "LEADER"));
    let mut d = SnapshotDiffBTreeMapsMasters::new();
    let collided = d.first_snapshot(all, "yb-1:7000".to_string());
    assert_eq!(collided, vec!["u1", "u1"]);
    let collided = d.second_snapshot(AllStoredMasters::new(), "yb-1:7000".to_string());
    assert_eq!(collided.len(), 0);
    let blocks = d.print().unwrap();
    assert_eq!(blocks.len(), 2);
    assert_eq!(blocks[0].permanent_uuid, "u1");
    assert_eq!(blocks[0].kind, DiffKind::Removed);
    assert_eq!(blocks[0].row.first_instance_seqno, 4);
    assert_eq!(blocks[1].permanent_uuid, "u2");
    assert_eq!(blocks[1].row.first_instance_seqno, 2);
}

#[test]
fn the_rows_do_not_depend_on_the_order_nor_on_the_times_of_the_reports() {
    let rows = |order: [usize; 3], time: i64| {
        let endpoints = ["yb-1.local:7000", "yb-2.local:7000", "yb-3.local:7000"];
        let reports: Vec<Collected<AllMasters>> = order
            .iter()
            .map(|i| Collected {
                hostname_port: endpoints[*i].to_string(),
                timestamp: at(time + *i as i64),
                payload: if *i == 1 { AllMasters { masters: Vec::new() } } else { cluster() },
            })
            .collect();
        let all = AllStoredMasters::read_masters(reports);
        let mut masters: Vec<(String, String, i64, String)> = all
            .stored_masters
            .iter()
            .map(|r| {
                (
                    r.hostname_port.clone(),
                    r.instance_permanent_uuid.clone(),
                    r.instance_instance_seqno,
                    r.role.clone(),
                )
            })
            .collect();
        masters.sort();
        let mut addresses: Vec<(String, String, String, String)> = all
            .stored_rpc_addresses
            .iter()
            .map(|r| {
                (
                    r.hostname_port.clone(),
                    r.instance_permanent_uuid.clone(),
                    r.host.clone(),
                    r.port.clone(),
                )
            })
            .collect();
        addresses.sort();
        (masters, addresses)
    };
    let expected = rows([0, 1, 2], 10);
    assert_eq!(expected.0.len(), 6);
    assert_eq!(expected.1.len(), 6);
    assert_eq!(rows([2, 0, 1], 500), expected);
    assert_eq!(rows([1, 2, 0], 77), expected);
}
