//! The master servers of a cluster: what each endpoint reports of them, the rows that a
//! snapshot keeps, and the difference between two snapshots.

use vstd::prelude::*;
use vstd::string::*;
use crate::collector::{
    all_untimed, flat_rows, host_port_text, hostname_port, law_flat_rows_ignore_order,
    law_rows_ignore_order_and_time, untimed, Collected,
};
use crate::diff::{DiffKind, DiffState, Entity, SnapshotDiffEntry, is_diff_of, reported};
use crate::snapshot::Timestamp;
use crate::text::{decimal_text, number_text, text_lt};

verus! {

/// The path, below an endpoint's address, at which it reports the masters.
pub const MASTERS_PATH: &'static str = "api/v1/masters";

/// The names under which a snapshot keeps the rows of the masters, of their RPC addresses,
/// of their HTTP addresses and of their errors.
pub const MASTERS_FILE: &'static str = "masters";

/// See `MASTERS_FILE`.
pub const MASTER_RPC_ADDRESSES_FILE: &'static str = "master_rpc_addresses";

/// See `MASTERS_FILE`.
pub const MASTER_HTTP_ADDRESSES_FILE: &'static str = "master_http_addresses";

/// See `MASTERS_FILE`.
pub const MASTER_ERRORS_FILE: &'static str = "master_errors";

/// The answer of one endpoint: the masters it knows of.
pub struct AllMasters {
    pub masters: Vec<Masters>,
}

/// One master as an endpoint reports it.
pub struct Masters {
    pub error: Option<MasterError>,
    pub instance_id: InstanceId,
    pub registration: Registration,
    pub role: Option<String>,
}

/// The error that an endpoint reports for a master it cannot reach.
pub struct MasterError {
    pub code: String,
    pub message: String,
    pub posix_code: i32,
    pub source_file: String,
    pub source_line: i32,
    pub errors: String,
}

/// The identity of a master: its permanent uuid, and the sequence number and start time of
/// its running instance.
pub struct InstanceId {
    pub instance_seqno: i64,
    pub permanent_uuid: String,
    pub start_time_us: Option<i64>,
}

/// What a master registered: its addresses and its placement.
pub struct Registration {
    pub private_rpc_addresses: Vec<PrivateRpcAddresses>,
    pub http_addresses: Option<Vec<HttpAddresses>>,
    pub cloud_info: Option<CloudInfo>,
    pub placement_uuid: Option<String>,
}

/// An RPC address of a master.
pub struct PrivateRpcAddresses {
    pub host: String,
    pub port: i32,
}

/// An HTTP address of a master.
pub struct HttpAddresses {
    pub host: String,
    pub port: i32,
}

/// The placement of a master: cloud, region and zone.
pub struct CloudInfo {
    pub placement_cloud: String,
    pub placement_region: String,
    pub placement_zone: String,
}

/// The row that a snapshot keeps of one master as one endpoint reported it.
pub struct StoredMasters {
    pub hostname_port: String,
    pub timestamp: Timestamp,
    pub instance_permanent_uuid: String,
    pub instance_instance_seqno: i64,
    pub start_time_us: i64,
    pub registration_cloud_placement_cloud: String,
    pub registration_cloud_placement_region: String,
    pub registration_cloud_placement_zone: String,
    pub registration_placement_uuid: String,
    pub role: String,
}

/// The row that a snapshot keeps of one RPC address of a master.
pub struct StoredRpcAddresses {
    pub hostname_port: String,
    pub timestamp: Timestamp,
    pub instance_permanent_uuid: String,
    pub host: String,
    pub port: String,
}

/// The row that a snapshot keeps of one HTTP address of a master.
pub struct StoredHttpAddresses {
    pub hostname_port: String,
    pub timestamp: Timestamp,
    pub instance_permanent_uuid: String,
    pub host: String,
    pub port: String,
}

/// The row that a snapshot keeps of the error that an endpoint reported for a master.
pub struct StoredMasterError {
    pub hostname_port: String,
    pub timestamp: Timestamp,
    pub instance_permanent_uuid: String,
    pub code: String,
    pub message: String,
    pub posix_code: i32,
    pub source_file: String,
    pub source_line: i32,
    pub errors: String,
}

/// The model of a `StoredMasters` row.
pub ghost struct StoredMastersView {
    pub hostname_port: Seq<char>,
    pub timestamp: Timestamp,
    pub instance_permanent_uuid: Seq<char>,
    pub instance_instance_seqno: i64,
    pub start_time_us: i64,
    pub registration_cloud_placement_cloud: Seq<char>,
    pub registration_cloud_placement_region: Seq<char>,
    pub registration_cloud_placement_zone: Seq<char>,
    pub registration_placement_uuid: Seq<char>,
    pub role: Seq<char>,
}

/// The model of a `StoredRpcAddresses` or `StoredHttpAddresses` row.
pub ghost struct StoredAddressView {
    pub hostname_port: Seq<char>,
    pub timestamp: Timestamp,
    pub instance_permanent_uuid: Seq<char>,
    pub host: Seq<char>,
    pub port: Seq<char>,
}

/// The model of a `StoredMasterError` row.
pub ghost struct StoredMasterErrorView {
    pub hostname_port: Seq<char>,
    pub timestamp: Timestamp,
    pub instance_permanent_uuid: Seq<char>,
    pub code: Seq<char>,
    pub message: Seq<char>,
    pub posix_code: i32,
    pub source_file: Seq<char>,
    pub source_line: i32,
    pub errors: Seq<char>,
}

impl View for StoredMasters {
    type V = StoredMastersView;

    open spec fn view(&self) -> StoredMastersView {
        StoredMastersView {
            hostname_port: self.hostname_port@,
            timestamp: self.timestamp,
            instance_permanent_uuid: self.instance_permanent_uuid@,
            instance_instance_seqno: self.instance_instance_seqno,
            start_time_us: self.start_time_us,
            registration_cloud_placement_cloud: self.registration_cloud_placement_cloud@,
            registration_cloud_placement_region: self.registration_cloud_placement_region@,
            registration_cloud_placement_zone: self.registration_cloud_placement_zone@,
            registration_placement_uuid: self.registration_placement_uuid@,
            role: self.role@,
        }
    }
}

impl View for StoredRpcAddresses {
    type V = StoredAddressView;

    open spec fn view(&self) -> StoredAddressView {
        StoredAddressView {
            hostname_port: self.hostname_port@,
            timestamp: self.timestamp,
            instance_permanent_uuid: self.instance_permanent_uuid@,
            host: self.host@,
            port: self.port@,
        }
    }
}

impl View for StoredHttpAddresses {
    type V = StoredAddressView;

    open spec fn view(&self) -> StoredAddressView {
        StoredAddressView {
            hostname_port: self.hostname_port@,
            timestamp: self.timestamp,
            instance_permanent_uuid: self.instance_permanent_uuid@,
            host: self.host@,
            port: self.port@,
        }
    }
}

impl View for StoredMasterError {
    type V = StoredMasterErrorView;

    open spec fn view(&self) -> StoredMasterErrorView {
        StoredMasterErrorView {
            hostname_port: self.hostname_port@,
            timestamp: self.timestamp,
            instance_permanent_uuid: self.instance_permanent_uuid@,
            code: self.code@,
            message: self.message@,
            posix_code: self.posix_code,
            source_file: self.source_file@,
            source_line: self.source_line,
            errors: self.errors@,
        }
    }
}

/// The text that stands for a placement that the endpoint left out.
pub open spec fn unset_text() -> Seq<char> {
    seq!['U', 'n', 's', 'e', 't']
}

/// The text that stands for a role that the endpoint left out.
pub open spec fn unknown_role_text() -> Seq<char> {
    seq!['U', 'n', 'n', 'k', 'n', 'o', 'w', 'n']
}

/// The row kept of `master`, as the endpoint `hostname_port` reported it at `timestamp`.
/// What the endpoint left out is filled in: 0 for the start time, `Unset` for the placement,
/// `Unnknown` for the role.
pub open spec fn stored_master(
    master: Masters,
    hostname_port: Seq<char>,
    timestamp: Timestamp,
) -> StoredMastersView {
    StoredMastersView {
        hostname_port,
        timestamp,
        instance_permanent_uuid: master.instance_id.permanent_uuid@,
        instance_instance_seqno: master.instance_id.instance_seqno,
        start_time_us: match master.instance_id.start_time_us {
            Some(t) => t,
            None => 0,
        },
        registration_cloud_placement_cloud: match master.registration.cloud_info {
            Some(c) => c.placement_cloud@,
            None => unset_text(),
        },
        registration_cloud_placement_region: match master.registration.cloud_info {
            Some(c) => c.placement_region@,
            None => unset_text(),
        },
        registration_cloud_placement_zone: match master.registration.cloud_info {
            Some(c) => c.placement_zone@,
            None => unset_text(),
        },
        registration_placement_uuid: match master.registration.placement_uuid {
            Some(p) => p@,
            None => unset_text(),
        },
        role: match master.role {
            Some(r) => r@,
            None => unknown_role_text(),
        },
    }
}

/// The row kept of the error of `master`, if the endpoint reported one.
pub open spec fn stored_error(
    master: Masters,
    hostname_port: Seq<char>,
    timestamp: Timestamp,
) -> Seq<StoredMasterErrorView> {
    match master.error {
        Some(e) => seq![
            StoredMasterErrorView {
                hostname_port,
                timestamp,
                instance_permanent_uuid: master.instance_id.permanent_uuid@,
                code: e.code@,
                message: e.message@,
                posix_code: e.posix_code,
                source_file: e.source_file@,
                source_line: e.source_line,
                errors: e.errors@,
            },
        ],
        None => Seq::empty(),
    }
}

/// The row kept of one address of a master: its port is written in decimal notation.
pub open spec fn stored_address(
    uuid: Seq<char>,
    host: Seq<char>,
    port: i32,
    hostname_port: Seq<char>,
    timestamp: Timestamp,
) -> StoredAddressView {
    StoredAddressView {
        hostname_port,
        timestamp,
        instance_permanent_uuid: uuid,
        host,
        port: decimal_text(port as int),
    }
}

/// The rows kept of the RPC addresses of `master`, in the order of the report.
pub open spec fn stored_rpc(master: Masters, hostname_port: Seq<char>, timestamp: Timestamp) -> Seq<
    StoredAddressView,
> {
    let addresses = master.registration.private_rpc_addresses@;
    Seq::new(
        addresses.len(),
        |i: int|
            stored_address(
                master.instance_id.permanent_uuid@,
                addresses[i].host@,
                addresses[i].port,
                hostname_port,
                timestamp,
            ),
    )
}

/// The rows kept of the HTTP addresses of `master`, in the order of the report; none where
/// the endpoint left them out.
pub open spec fn stored_http(master: Masters, hostname_port: Seq<char>, timestamp: Timestamp) -> Seq<
    StoredAddressView,
> {
    match master.registration.http_addresses {
        Some(list) => Seq::new(
            list@.len(),
            |i: int|
                stored_address(
                    master.instance_id.permanent_uuid@,
                    list@[i].host@,
                    list@[i].port,
                    hostname_port,
                    timestamp,
                ),
        ),
        None => Seq::empty(),
    }
}

/// The rows kept of the masters of one report, one for each master, in the order of the
/// report.
pub open spec fn stored_masters_of(
    masters: Seq<Masters>,
    hostname_port: Seq<char>,
    timestamp: Timestamp,
) -> Seq<StoredMastersView> {
    Seq::new(masters.len(), |i: int| stored_master(masters[i], hostname_port, timestamp))
}

/// The error rows kept of the masters of one report, master by master.
pub open spec fn stored_errors_of(
    masters: Seq<Masters>,
    hostname_port: Seq<char>,
    timestamp: Timestamp,
) -> Seq<StoredMasterErrorView>
    decreases masters.len(),
{
    if masters.len() == 0 {
        Seq::empty()
    } else {
        stored_errors_of(masters.drop_last(), hostname_port, timestamp) + stored_error(
            masters.last(),
            hostname_port,
            timestamp,
        )
    }
}

/// The RPC address rows kept of the masters of one report, master by master.
pub open spec fn stored_rpc_of(
    masters: Seq<Masters>,
    hostname_port: Seq<char>,
    timestamp: Timestamp,
) -> Seq<StoredAddressView>
    decreases masters.len(),
{
    if masters.len() == 0 {
        Seq::empty()
    } else {
        stored_rpc_of(masters.drop_last(), hostname_port, timestamp) + stored_rpc(
            masters.last(),
            hostname_port,
            timestamp,
        )
    }
}

/// The HTTP address rows kept of the masters of one report, master by master.
pub open spec fn stored_http_of(
    masters: Seq<Masters>,
    hostname_port: Seq<char>,
    timestamp: Timestamp,
) -> Seq<StoredAddressView>
    decreases masters.len(),
{
    if masters.len() == 0 {
        Seq::empty()
    } else {
        stored_http_of(masters.drop_last(), hostname_port, timestamp) + stored_http(
            masters.last(),
            hostname_port,
            timestamp,
        )
    }
}

/// The models of a sequence of master rows.
pub open spec fn master_views(rows: Seq<StoredMasters>) -> Seq<StoredMastersView> {
    rows.map_values(|r: StoredMasters| r@)
}

/// The models of a sequence of RPC address rows.
pub open spec fn rpc_views(rows: Seq<StoredRpcAddresses>) -> Seq<StoredAddressView> {
    rows.map_values(|r: StoredRpcAddresses| r@)
}

/// The models of a sequence of HTTP address rows.
pub open spec fn http_views(rows: Seq<StoredHttpAddresses>) -> Seq<StoredAddressView> {
    rows.map_values(|r: StoredHttpAddresses| r@)
}

/// The models of a sequence of error rows.
pub open spec fn error_views(rows: Seq<StoredMasterError>) -> Seq<StoredMasterErrorView> {
    rows.map_values(|r: StoredMasterError| r@)
}

/// Everything that a round keeps of the masters.
pub struct AllStoredMasters {
    pub stored_masters: Vec<StoredMasters>,
    pub stored_rpc_addresses: Vec<StoredRpcAddresses>,
    pub stored_http_addresses: Vec<StoredHttpAddresses>,
    pub stored_master_error: Vec<StoredMasterError>,
}

/// Writes `Unset`.
fn unset() -> (text: String)
    ensures
        text@ == unset_text(),
{
    proof {
        reveal_strlit("Unset");
    }
    let text = String::from_str("Unset");
    assert(text@ =~= unset_text());
    text
}

/// The text of an optional value, or `Unset` where it was left out.
fn text_or_unset(value: &Option<String>) -> (text: String)
    ensures
        text@ == (match *value {
            Some(s) => s@,
            None => unset_text(),
        }),
{
    match value {
        Some(s) => s.clone(),
        None => unset(),
    }
}

/// Makes the row that is kept of one master.
fn master_row(master: &Masters, hostname_port: &str, timestamp: Timestamp) -> (row: StoredMasters)
    ensures
        row@ == stored_master(*master, hostname_port@, timestamp),
{
    let (placement_cloud, placement_region, placement_zone) = match &master.registration.cloud_info {
        Some(cloud_info) => (
            cloud_info.placement_cloud.clone(),
            cloud_info.placement_region.clone(),
            cloud_info.placement_zone.clone(),
        ),
        None => (unset(), unset(), unset()),
    };
    let role = match &master.role {
        Some(r) => r.clone(),
        None => {
            proof {
                reveal_strlit("Unnknown");
            }
            let r = String::from_str("Unnknown");
            assert(r@ =~= unknown_role_text());
            r
        },
    };
    StoredMasters {
        hostname_port: String::from_str(hostname_port),
        timestamp,
        instance_permanent_uuid: master.instance_id.permanent_uuid.clone(),
        instance_instance_seqno: master.instance_id.instance_seqno,
        start_time_us: match master.instance_id.start_time_us {
            Some(v) => v,
            None => 0,
        },
        registration_cloud_placement_cloud: placement_cloud,
        registration_cloud_placement_region: placement_region,
        registration_cloud_placement_zone: placement_zone,
        registration_placement_uuid: text_or_unset(&master.registration.placement_uuid),
        role,
    }
}

/// Adds the row of the error of one master, if it has one.
fn push_error_row(
    rows: &mut Vec<StoredMasterError>,
    master: &Masters,
    hostname_port: &str,
    timestamp: Timestamp,
)
    ensures
        error_views(final(rows)@) == error_views(old(rows)@) + stored_error(
            *master,
            hostname_port@,
            timestamp,
        ),
{
    match &master.error {
        Some(error) => {
            rows.push(
                StoredMasterError {
                    hostname_port: String::from_str(hostname_port),
                    timestamp,
                    instance_permanent_uuid: master.instance_id.permanent_uuid.clone(),
                    code: error.code.clone(),
                    message: error.message.clone(),
                    posix_code: error.posix_code,
                    source_file: error.source_file.clone(),
                    source_line: error.source_line,
                    errors: error.errors.clone(),
                },
            );
        },
        None => {},
    }
    assert(error_views(rows@) =~= error_views(old(rows)@) + stored_error(
        *master,
        hostname_port@,
        timestamp,
    ));
}

/// Adds the rows of the RPC addresses of one master.
fn push_rpc_rows(
    rows: &mut Vec<StoredRpcAddresses>,
    master: &Masters,
    hostname_port: &str,
    timestamp: Timestamp,
)
    ensures
        rpc_views(final(rows)@) == rpc_views(old(rows)@) + stored_rpc(
            *master,
            hostname_port@,
            timestamp,
        ),
{
    let ghost expected = stored_rpc(*master, hostname_port@, timestamp);
    let list = &master.registration.private_rpc_addresses;
    let mut a: usize = 0;
    while a < list.len()
        invariant
            a <= list@.len(),
            list@ == master.registration.private_rpc_addresses@,
            expected == stored_rpc(*master, hostname_port@, timestamp),
            rpc_views(rows@) == rpc_views(old(rows)@) + expected.take(a as int),
        decreases list@.len() - a,
    {
        let ghost before = rows@;
        let row = StoredRpcAddresses {
            hostname_port: String::from_str(hostname_port),
            timestamp,
            instance_permanent_uuid: master.instance_id.permanent_uuid.clone(),
            host: list[a].host.clone(),
            port: number_text(list[a].port as i64),
        };
        assert(row@ == expected[a as int]);
        rows.push(row);
        proof {
            assert(rpc_views(rows@) =~= rpc_views(before).push(expected[a as int]));
            assert(expected.take(a + 1) =~= expected.take(a as int).push(expected[a as int]));
        }
        a += 1;
    }
    assert(expected.take(expected.len() as int) =~= expected);
}

/// Adds the rows of the HTTP addresses of one master.
fn push_http_rows(
    rows: &mut Vec<StoredHttpAddresses>,
    master: &Masters,
    hostname_port: &str,
    timestamp: Timestamp,
)
    ensures
        http_views(final(rows)@) == http_views(old(rows)@) + stored_http(
            *master,
            hostname_port@,
            timestamp,
        ),
{
    let ghost expected = stored_http(*master, hostname_port@, timestamp);
    match &master.registration.http_addresses {
        Some(list) => {
            let mut b: usize = 0;
            while b < list.len()
                invariant
                    b <= list@.len(),
                    master.registration.http_addresses == Some(*list),
                    expected == stored_http(*master, hostname_port@, timestamp),
                    http_views(rows@) == http_views(old(rows)@) + expected.take(b as int),
                decreases list@.len() - b,
            {
                let ghost before = rows@;
                let row = StoredHttpAddresses {
                    hostname_port: String::from_str(hostname_port),
                    timestamp,
                    instance_permanent_uuid: master.instance_id.permanent_uuid.clone(),
                    host: list[b].host.clone(),
                    port: number_text(list[b].port as i64),
                };
                assert(row@ == expected[b as int]);
                rows.push(row);
                proof {
                    assert(http_views(rows@) =~= http_views(before).push(expected[b as int]));
                    assert(expected.take(b + 1) =~= expected.take(b as int).push(
                        expected[b as int],
                    ));
                }
                b += 1;
            }
            assert(expected.take(expected.len() as int) =~= expected);
        },
        None => {
            assert(http_views(rows@) =~= http_views(old(rows)@) + expected);
        },
    }
}

impl AllStoredMasters {
    /// Nothing kept yet.
    pub fn new() -> (all: Self)
        ensures
            all.stored_masters@.len() == 0,
            all.stored_rpc_addresses@.len() == 0,
            all.stored_http_addresses@.len() == 0,
            all.stored_master_error@.len() == 0,
    {
        AllStoredMasters {
            stored_masters: Vec::new(),
            stored_rpc_addresses: Vec::new(),
            stored_http_addresses: Vec::new(),
            stored_master_error: Vec::new(),
        }
    }

    /// Adds the rows of one endpoint's report to what is kept: for each master its row, the
    /// row of its error if it has one, and a row for each of its RPC and HTTP addresses.
    /// What was kept before stays, in front.
    pub fn split_into_vectors(
        &mut self,
        masters: AllMasters,
        hostname_port: &str,
        detail_snapshot_time: Timestamp,
    )
        ensures
            master_views(final(self).stored_masters@) == master_views(old(self).stored_masters@)
                + stored_masters_of(masters.masters@, hostname_port@, detail_snapshot_time),
            error_views(final(self).stored_master_error@) == error_views(
                old(self).stored_master_error@,
            ) + stored_errors_of(masters.masters@, hostname_port@, detail_snapshot_time),
            rpc_views(final(self).stored_rpc_addresses@) == rpc_views(
                old(self).stored_rpc_addresses@,
            ) + stored_rpc_of(masters.masters@, hostname_port@, detail_snapshot_time),
            http_views(final(self).stored_http_addresses@) == http_views(
                old(self).stored_http_addresses@,
            ) + stored_http_of(masters.masters@, hostname_port@, detail_snapshot_time),
    {
        let ghost all = masters.masters@;
        let ghost hp = hostname_port@;
        let ghost t = detail_snapshot_time;
        let count = masters.masters.len();
        let mut n: usize = 0;
        while n < count
            invariant
                count == all.len(),
                all == masters.masters@,
                hp == hostname_port@,
                t == detail_snapshot_time,
                n <= count,
                master_views(self.stored_masters@) == master_views(old(self).stored_masters@)
                    + stored_masters_of(all.take(n as int), hp, t),
                error_views(self.stored_master_error@) == error_views(
                    old(self).stored_master_error@,
                ) + stored_errors_of(all.take(n as int), hp, t),
                rpc_views(self.stored_rpc_addresses@) == rpc_views(old(self).stored_rpc_addresses@)
                    + stored_rpc_of(all.take(n as int), hp, t),
                http_views(self.stored_http_addresses@) == http_views(
                    old(self).stored_http_addresses@,
                ) + stored_http_of(all.take(n as int), hp, t),
            decreases count - n,
        {
            let master = &masters.masters[n];
            proof {
                assert(all.take(n + 1).drop_last() =~= all.take(n as int));
                assert(all.take(n + 1).last() == *master);
            }
            let ghost masters_before = self.stored_masters@;
            let ghost errors_before = self.stored_master_error@;
            let ghost rpc_before = self.stored_rpc_addresses@;
            let ghost http_before = self.stored_http_addresses@;
            let ghost front = all.take(n as int);
            let row = master_row(master, hostname_port, detail_snapshot_time);
            self.stored_masters.push(row);
            push_error_row(&mut self.stored_master_error, master, hostname_port, detail_snapshot_time);
            push_rpc_rows(&mut self.stored_rpc_addresses, master, hostname_port, detail_snapshot_time);
            push_http_rows(
                &mut self.stored_http_addresses,
                master,
                hostname_port,
                detail_snapshot_time,
            );
            proof {
                assert(self.stored_masters@ == masters_before.push(row));
                assert(master_views(self.stored_masters@) =~= master_views(masters_before).push(
                    row@,
                ));
                assert(stored_masters_of(all.take(n + 1), hp, t) =~= stored_masters_of(front, hp, t).push(
                    stored_master(*master, hp, t),
                ));
                assert(master_views(self.stored_masters@) =~= master_views(old(self).stored_masters@)
                    + stored_masters_of(all.take(n + 1), hp, t));
                assert(error_views(self.stored_master_error@) =~= error_views(
                    old(self).stored_master_error@,
                ) + (stored_errors_of(front, hp, t) + stored_error(*master, hp, t)));
                assert(rpc_views(self.stored_rpc_addresses@) =~= rpc_views(
                    old(self).stored_rpc_addresses@,
                ) + (stored_rpc_of(front, hp, t) + stored_rpc(*master, hp, t)));
                assert(http_views(self.stored_http_addresses@) =~= http_views(
                    old(self).stored_http_addresses@,
                ) + (stored_http_of(front, hp, t) + stored_http(*master, hp, t)));
            }
            n += 1;
        }
        proof {
            assert(all.take(all.len() as int) =~= all);
        }
    }

    /// Gathers what a round keeps of the masters: the rows of every endpoint's report, in the
    /// order in which the reports came in.
    pub fn read_masters(reports: Vec<Collected<AllMasters>>) -> (all: Self)
        ensures
            master_views(all.stored_masters@) == flat_rows(reports@, master_rows()),
            error_views(all.stored_master_error@) == flat_rows(reports@, error_rows()),
            rpc_views(all.stored_rpc_addresses@) == flat_rows(reports@, rpc_rows()),
            http_views(all.stored_http_addresses@) == flat_rows(reports@, http_rows()),
    {
        let ghost every = reports@;
        let mut all = AllStoredMasters::new();
        assert(master_views(all.stored_masters@) =~= flat_rows(every.take(0), master_rows()));
        assert(error_views(all.stored_master_error@) =~= flat_rows(
            every.take(0),
            error_rows(),
        ));
        assert(rpc_views(all.stored_rpc_addresses@) =~= flat_rows(every.take(0), rpc_rows()));
        assert(http_views(all.stored_http_addresses@) =~= flat_rows(
            every.take(0),
            http_rows(),
        ));
        for report in it: reports
            invariant
                it.seq() == every,
                master_views(all.stored_masters@) == flat_rows(
                    every.take(it.index() as int),
                    master_rows(),
                ),
                error_views(all.stored_master_error@) == flat_rows(
                    every.take(it.index() as int),
                    error_rows(),
                ),
                rpc_views(all.stored_rpc_addresses@) == flat_rows(
                    every.take(it.index() as int),
                    rpc_rows(),
                ),
                http_views(all.stored_http_addresses@) == flat_rows(
                    every.take(it.index() as int),
                    http_rows(),
                ),
        {
            proof {
                let n = it.index() as int;
                assert(every.take(n + 1).drop_last() =~= every.take(n));
                assert(every.take(n + 1).last() == report);
            }
            all.split_into_vectors(report.payload, report.hostname_port.as_str(), report.timestamp);
        }
        assert(every.take(every.len() as int) =~= every);
        all
    }
}

/// The master rows kept of one report.
pub open spec fn master_rows() -> spec_fn(Collected<AllMasters>) -> Seq<StoredMastersView> {
    |r: Collected<AllMasters>| stored_masters_of(r.payload.masters@, r.hostname_port@, r.timestamp)
}

/// The error rows kept of one report.
pub open spec fn error_rows() -> spec_fn(Collected<AllMasters>) -> Seq<StoredMasterErrorView> {
    |r: Collected<AllMasters>| stored_errors_of(r.payload.masters@, r.hostname_port@, r.timestamp)
}

/// The RPC address rows kept of one report.
pub open spec fn rpc_rows() -> spec_fn(Collected<AllMasters>) -> Seq<StoredAddressView> {
    |r: Collected<AllMasters>| stored_rpc_of(r.payload.masters@, r.hostname_port@, r.timestamp)
}

/// The HTTP address rows kept of one report.
pub open spec fn http_rows() -> spec_fn(Collected<AllMasters>) -> Seq<StoredAddressView> {
    |r: Collected<AllMasters>| stored_http_of(r.payload.masters@, r.hostname_port@, r.timestamp)
}

/// What a round keeps of the masters does not depend on the order in which the endpoints'
/// reports come in: the same reports in another order give the same rows, each as often.
pub proof fn law_master_rows_ignore_order(
    a: Seq<Collected<AllMasters>>,
    b: Seq<Collected<AllMasters>>,
)
    requires
        a.to_multiset() == b.to_multiset(),
    ensures
        flat_rows(a, master_rows()).to_multiset() == flat_rows(b, master_rows()).to_multiset(),
        flat_rows(a, error_rows()).to_multiset() == flat_rows(b, error_rows()).to_multiset(),
        flat_rows(a, rpc_rows()).to_multiset() == flat_rows(b, rpc_rows()).to_multiset(),
        flat_rows(a, http_rows()).to_multiset() == flat_rows(b, http_rows()).to_multiset(),
{
    law_flat_rows_ignore_order(a, b, master_rows());
    law_flat_rows_ignore_order(a, b, error_rows());
    law_flat_rows_ignore_order(a, b, rpc_rows());
    law_flat_rows_ignore_order(a, b, http_rows());
}

/// A master row with the time of its report set aside.
pub open spec fn master_untimed() -> spec_fn(StoredMastersView) -> StoredMastersView {
    |row: StoredMastersView|
        StoredMastersView {
            hostname_port: row.hostname_port,
            timestamp: Timestamp { seconds: 0, nanos: 0 },
            instance_permanent_uuid: row.instance_permanent_uuid,
            instance_instance_seqno: row.instance_instance_seqno,
            start_time_us: row.start_time_us,
            registration_cloud_placement_cloud: row.registration_cloud_placement_cloud,
            registration_cloud_placement_region: row.registration_cloud_placement_region,
            registration_cloud_placement_zone: row.registration_cloud_placement_zone,
            registration_placement_uuid: row.registration_placement_uuid,
            role: row.role,
        }
}

/// An address row with the time of its report set aside.
pub open spec fn address_untimed() -> spec_fn(StoredAddressView) -> StoredAddressView {
    |row: StoredAddressView|
        StoredAddressView {
            hostname_port: row.hostname_port,
            timestamp: Timestamp { seconds: 0, nanos: 0 },
            instance_permanent_uuid: row.instance_permanent_uuid,
            host: row.host,
            port: row.port,
        }
}

/// An error row with the time of its report set aside.
pub open spec fn error_untimed() -> spec_fn(StoredMasterErrorView) -> StoredMasterErrorView {
    |row: StoredMasterErrorView|
        StoredMasterErrorView {
            hostname_port: row.hostname_port,
            timestamp: Timestamp { seconds: 0, nanos: 0 },
            instance_permanent_uuid: row.instance_permanent_uuid,
            code: row.code,
            message: row.message,
            posix_code: row.posix_code,
            source_file: row.source_file,
            source_line: row.source_line,
            errors: row.errors,
        }
}

/// The rows of a report show of its time nothing but the time itself.
proof fn lemma_rows_with_time_aside(
    masters: Seq<Masters>,
    hostname_port: Seq<char>,
    timestamp: Timestamp,
)
    ensures
        stored_masters_of(masters, hostname_port, timestamp).map_values(master_untimed())
            == stored_masters_of(
            masters,
            hostname_port,
            Timestamp { seconds: 0, nanos: 0 },
        ).map_values(master_untimed()),
        stored_errors_of(masters, hostname_port, timestamp).map_values(error_untimed())
            == stored_errors_of(
            masters,
            hostname_port,
            Timestamp { seconds: 0, nanos: 0 },
        ).map_values(error_untimed()),
        stored_rpc_of(masters, hostname_port, timestamp).map_values(address_untimed())
            == stored_rpc_of(masters, hostname_port, Timestamp { seconds: 0, nanos: 0 }).map_values(
            address_untimed(),
        ),
        stored_http_of(masters, hostname_port, timestamp).map_values(address_untimed())
            == stored_http_of(
            masters,
            hostname_port,
            Timestamp { seconds: 0, nanos: 0 },
        ).map_values(address_untimed()),
    decreases masters.len(),
{
    let epoch = Timestamp { seconds: 0, nanos: 0 };
    assert(stored_masters_of(masters, hostname_port, timestamp).map_values(master_untimed())
        =~= stored_masters_of(masters, hostname_port, epoch).map_values(master_untimed()));
    if masters.len() > 0 {
        let front = masters.drop_last();
        let last = masters.last();
        lemma_rows_with_time_aside(front, hostname_port, timestamp);
        assert(stored_error(last, hostname_port, timestamp).map_values(error_untimed())
            =~= stored_error(last, hostname_port, epoch).map_values(error_untimed()));
        assert(stored_rpc(last, hostname_port, timestamp).map_values(address_untimed())
            =~= stored_rpc(last, hostname_port, epoch).map_values(address_untimed()));
        assert(stored_http(last, hostname_port, timestamp).map_values(address_untimed())
            =~= stored_http(last, hostname_port, epoch).map_values(address_untimed()));
        assert(stored_errors_of(masters, hostname_port, timestamp).map_values(error_untimed())
            =~= stored_errors_of(front, hostname_port, timestamp).map_values(error_untimed())
            + stored_error(last, hostname_port, timestamp).map_values(error_untimed()));
        assert(stored_errors_of(masters, hostname_port, epoch).map_values(error_untimed())
            =~= stored_errors_of(front, hostname_port, epoch).map_values(error_untimed())
            + stored_error(last, hostname_port, epoch).map_values(error_untimed()));
        assert(stored_rpc_of(masters, hostname_port, timestamp).map_values(address_untimed())
            =~= stored_rpc_of(front, hostname_port, timestamp).map_values(address_untimed())
            + stored_rpc(last, hostname_port, timestamp).map_values(address_untimed()));
        assert(stored_rpc_of(masters, hostname_port, epoch).map_values(address_untimed())
            =~= stored_rpc_of(front, hostname_port, epoch).map_values(address_untimed())
            + stored_rpc(last, hostname_port, epoch).map_values(address_untimed()));
        assert(stored_http_of(masters, hostname_port, timestamp).map_values(address_untimed())
            =~= stored_http_of(front, hostname_port, timestamp).map_values(address_untimed())
            + stored_http(last, hostname_port, timestamp).map_values(address_untimed()));
        assert(stored_http_of(masters, hostname_port, epoch).map_values(address_untimed())
            =~= stored_http_of(front, hostname_port, epoch).map_values(address_untimed())
            + stored_http(last, hostname_port, epoch).map_values(address_untimed()));
    } else {
        assert(stored_errors_of(masters, hostname_port, timestamp).map_values(error_untimed())
            =~= stored_errors_of(masters, hostname_port, epoch).map_values(error_untimed()));
        assert(stored_rpc_of(masters, hostname_port, timestamp).map_values(address_untimed())
            =~= stored_rpc_of(masters, hostname_port, epoch).map_values(address_untimed()));
        assert(stored_http_of(masters, hostname_port, timestamp).map_values(address_untimed())
            =~= stored_http_of(masters, hostname_port, epoch).map_values(address_untimed()));
    }
}

/// What a round keeps of the masters depends on what the endpoints answered, not on the
/// order of the answers nor on the times at which they were given: two rounds with the same
/// answers of the same endpoints keep the same rows, the times set aside, each as often.
pub proof fn law_master_rows_ignore_order_and_time(
    a: Seq<Collected<AllMasters>>,
    b: Seq<Collected<AllMasters>>,
)
    requires
        all_untimed(a).to_multiset() == all_untimed(b).to_multiset(),
    ensures
        flat_rows(a, master_rows()).map_values(master_untimed()).to_multiset() == flat_rows(
            b,
            master_rows(),
        ).map_values(master_untimed()).to_multiset(),
        flat_rows(a, error_rows()).map_values(error_untimed()).to_multiset() == flat_rows(
            b,
            error_rows(),
        ).map_values(error_untimed()).to_multiset(),
        flat_rows(a, rpc_rows()).map_values(address_untimed()).to_multiset() == flat_rows(
            b,
            rpc_rows(),
        ).map_values(address_untimed()).to_multiset(),
        flat_rows(a, http_rows()).map_values(address_untimed()).to_multiset() == flat_rows(
            b,
            http_rows(),
        ).map_values(address_untimed()).to_multiset(),
{
    assert forall|r: Collected<AllMasters>| #[trigger]
        master_rows()(r).map_values(master_untimed()) == master_rows()(untimed(r)).map_values(
            master_untimed(),
        ) by {
        lemma_rows_with_time_aside(r.payload.masters@, r.hostname_port@, r.timestamp);
    }
    assert forall|r: Collected<AllMasters>| #[trigger]
        error_rows()(r).map_values(error_untimed()) == error_rows()(untimed(r)).map_values(
            error_untimed(),
        ) by {
        lemma_rows_with_time_aside(r.payload.masters@, r.hostname_port@, r.timestamp);
    }
    assert forall|r: Collected<AllMasters>| #[trigger]
        rpc_rows()(r).map_values(address_untimed()) == rpc_rows()(untimed(r)).map_values(
            address_untimed(),
        ) by {
        lemma_rows_with_time_aside(r.payload.masters@, r.hostname_port@, r.timestamp);
    }
    assert forall|r: Collected<AllMasters>| #[trigger]
        http_rows()(r).map_values(address_untimed()) == http_rows()(untimed(r)).map_values(
            address_untimed(),
        ) by {
        lemma_rows_with_time_aside(r.payload.masters@, r.hostname_port@, r.timestamp);
    }
    law_rows_ignore_order_and_time(a, b, master_rows(), master_untimed());
    law_rows_ignore_order_and_time(a, b, error_rows(), error_untimed());
    law_rows_ignore_order_and_time(a, b, rpc_rows(), address_untimed());
    law_rows_ignore_order_and_time(a, b, http_rows(), address_untimed());
}

impl Entity for StoredMasters {
    /// Sequence number, start time, placement cloud, region and zone, placement uuid, and
    /// role: all that a row holds of the master itself. The endpoint that reported the row and
    /// the time of the report are not data of the master.
    type Fields = (i64, i64, Seq<char>, Seq<char>, Seq<char>, Seq<char>, Seq<char>);

    /// A master is recognised by its permanent uuid.
    open spec fn identity(&self) -> Seq<char> {
        self.instance_permanent_uuid@
    }

    open spec fn fields(&self) -> (i64, i64, Seq<char>, Seq<char>, Seq<char>, Seq<char>, Seq<char>) {
        (
            self.instance_instance_seqno,
            self.start_time_us,
            self.registration_cloud_placement_cloud@,
            self.registration_cloud_placement_region@,
            self.registration_cloud_placement_zone@,
            self.registration_placement_uuid@,
            self.role@,
        )
    }

    fn identity_of(&self) -> (id: String) {
        self.instance_permanent_uuid.clone()
    }

    fn same_fields(&self, other: &Self) -> (same: bool) {
        self.instance_instance_seqno == other.instance_instance_seqno && self.start_time_us
            == other.start_time_us && self.registration_cloud_placement_cloud
            == other.registration_cloud_placement_cloud
            && self.registration_cloud_placement_region
            == other.registration_cloud_placement_region && self.registration_cloud_placement_zone
            == other.registration_cloud_placement_zone && self.registration_placement_uuid
            == other.registration_placement_uuid && self.role == other.role
    }
}

/// What two snapshots hold of one master, side by side. The side of a snapshot that does not
/// hold the master is zero and empty.
pub struct SnapshotDiffStoredMasters {
    pub first_instance_seqno: i64,
    pub first_start_time_us: i64,
    pub first_registration_cloud_placement_cloud: String,
    pub first_registration_cloud_placement_region: String,
    pub first_registration_cloud_placement_zone: String,
    pub first_registration_placement_uuid: String,
    pub first_role: String,
    pub second_instance_seqno: i64,
    pub second_start_time_us: i64,
    pub second_registration_cloud_placement_cloud: String,
    pub second_registration_cloud_placement_region: String,
    pub second_registration_cloud_placement_zone: String,
    pub second_registration_placement_uuid: String,
    pub second_role: String,
}

/// What one snapshot holds of a master, as it stands in a `SnapshotDiffStoredMasters`.
pub ghost struct MasterSide {
    pub instance_seqno: i64,
    pub start_time_us: i64,
    pub registration_cloud_placement_cloud: Seq<char>,
    pub registration_cloud_placement_region: Seq<char>,
    pub registration_cloud_placement_zone: Seq<char>,
    pub registration_placement_uuid: Seq<char>,
    pub role: Seq<char>,
}

/// The model of a `SnapshotDiffStoredMasters`: its two sides.
pub ghost struct SnapshotDiffStoredMastersView {
    pub first: MasterSide,
    pub second: MasterSide,
}

impl View for SnapshotDiffStoredMasters {
    type V = SnapshotDiffStoredMastersView;

    open spec fn view(&self) -> SnapshotDiffStoredMastersView {
        SnapshotDiffStoredMastersView {
            first: MasterSide {
                instance_seqno: self.first_instance_seqno,
                start_time_us: self.first_start_time_us,
                registration_cloud_placement_cloud: self.first_registration_cloud_placement_cloud@,
                registration_cloud_placement_region: self.first_registration_cloud_placement_region@,
                registration_cloud_placement_zone: self.first_registration_cloud_placement_zone@,
                registration_placement_uuid: self.first_registration_placement_uuid@,
                role: self.first_role@,
            },
            second: MasterSide {
                instance_seqno: self.second_instance_seqno,
                start_time_us: self.second_start_time_us,
                registration_cloud_placement_cloud: self.second_registration_cloud_placement_cloud@,
                registration_cloud_placement_region: self.second_registration_cloud_placement_region@,
                registration_cloud_placement_zone: self.second_registration_cloud_placement_zone@,
                registration_placement_uuid: self.second_registration_placement_uuid@,
                role: self.second_role@,
            },
        }
    }
}

/// The side of a snapshot that does not hold the master: zero and empty.
pub open spec fn absent_side() -> MasterSide {
    MasterSide {
        instance_seqno: 0,
        start_time_us: 0,
        registration_cloud_placement_cloud: Seq::empty(),
        registration_cloud_placement_region: Seq::empty(),
        registration_cloud_placement_zone: Seq::empty(),
        registration_placement_uuid: Seq::empty(),
        role: Seq::empty(),
    }
}

/// The side of a snapshot that holds the master in the row `stored`.
pub open spec fn side_of(stored: StoredMasters) -> MasterSide {
    MasterSide {
        instance_seqno: stored.instance_instance_seqno,
        start_time_us: stored.start_time_us,
        registration_cloud_placement_cloud: stored.registration_cloud_placement_cloud@,
        registration_cloud_placement_region: stored.registration_cloud_placement_region@,
        registration_cloud_placement_zone: stored.registration_cloud_placement_zone@,
        registration_placement_uuid: stored.registration_placement_uuid@,
        role: stored.role@,
    }
}

/// The side of a snapshot, from the row that it holds of the master, if any.
pub open spec fn side_from(stored: Option<StoredMasters>) -> MasterSide {
    match stored {
        Some(row) => side_of(row),
        None => absent_side(),
    }
}

/// Two rows hold the same data of a master exactly when they make the same side: the diff
/// compares all that a side shows.
pub proof fn law_fields_are_the_side(a: StoredMasters, b: StoredMasters)
    ensures
        a.fields() == b.fields() <==> side_of(a) == side_of(b),
{
}

/// Which data of a master differ between the two sides.
#[derive(Clone, Copy, Debug, PartialEq, Eq, Structural)]
pub struct MasterChanges {
    pub role: bool,
    pub cloud: bool,
    pub region: bool,
    pub zone: bool,
    pub placement_uuid: bool,
    pub seqno: bool,
    pub start_time: bool,
}

/// The data in which the two sides of `row` differ.
pub open spec fn changes_of(row: SnapshotDiffStoredMastersView) -> MasterChanges {
    MasterChanges {
        role: row.first.role != row.second.role,
        cloud: row.first.registration_cloud_placement_cloud
            != row.second.registration_cloud_placement_cloud,
        region: row.first.registration_cloud_placement_region
            != row.second.registration_cloud_placement_region,
        zone: row.first.registration_cloud_placement_zone
            != row.second.registration_cloud_placement_zone,
        placement_uuid: row.first.registration_placement_uuid
            != row.second.registration_placement_uuid,
        seqno: row.first.instance_seqno != row.second.instance_seqno,
        start_time: row.first.start_time_us != row.second.start_time_us,
    }
}

impl SnapshotDiffStoredMasters {
    /// A master that the first snapshot holds: the second side is zero and empty.
    pub fn first_snapshot(storedmasters: StoredMasters) -> (row: Self)
        ensures
            row@.first == side_of(storedmasters),
            row@.second == absent_side(),
    {
        SnapshotDiffStoredMasters {
            first_instance_seqno: storedmasters.instance_instance_seqno,
            first_start_time_us: storedmasters.start_time_us,
            first_registration_cloud_placement_cloud: storedmasters.registration_cloud_placement_cloud,
            first_registration_cloud_placement_region: storedmasters.registration_cloud_placement_region,
            first_registration_cloud_placement_zone: storedmasters.registration_cloud_placement_zone,
            first_registration_placement_uuid: storedmasters.registration_placement_uuid,
            first_role: storedmasters.role,
            second_instance_seqno: 0,
            second_start_time_us: 0,
            second_registration_cloud_placement_cloud: String::new(),
            second_registration_cloud_placement_region: String::new(),
            second_registration_cloud_placement_zone: String::new(),
            second_registration_placement_uuid: String::new(),
            second_role: String::new(),
        }
    }

    /// A master that only the second snapshot holds: the first side is zero and empty.
    pub fn second_snapshot_new(storedmasters: StoredMasters) -> (row: Self)
        ensures
            row@.first == absent_side(),
            row@.second == side_of(storedmasters),
    {
        SnapshotDiffStoredMasters {
            first_instance_seqno: 0,
            first_start_time_us: 0,
            first_registration_cloud_placement_cloud: String::new(),
            first_registration_cloud_placement_region: String::new(),
            first_registration_cloud_placement_zone: String::new(),
            first_registration_placement_uuid: String::new(),
            first_role: String::new(),
            second_instance_seqno: storedmasters.instance_instance_seqno,
            second_start_time_us: storedmasters.start_time_us,
            second_registration_cloud_placement_cloud: storedmasters.registration_cloud_placement_cloud,
            second_registration_cloud_placement_region: storedmasters.registration_cloud_placement_region,
            second_registration_cloud_placement_zone: storedmasters.registration_cloud_placement_zone,
            second_registration_placement_uuid: storedmasters.registration_placement_uuid,
            second_role: storedmasters.role,
        }
    }

    /// A master that the first snapshot holds as in `storedmasters_diff_row`, and the second
    /// as in `storedmasters`.
    pub fn second_snapshot_existing(
        storedmasters_diff_row: &SnapshotDiffStoredMasters,
        storedmasters: StoredMasters,
    ) -> (row: Self)
        ensures
            row@.first == storedmasters_diff_row@.first,
            row@.second == side_of(storedmasters),
    {
        SnapshotDiffStoredMasters {
            first_instance_seqno: storedmasters_diff_row.first_instance_seqno,
            first_start_time_us: storedmasters_diff_row.first_start_time_us,
            first_registration_cloud_placement_cloud: storedmasters_diff_row.first_registration_cloud_placement_cloud.clone(),
            first_registration_cloud_placement_region: storedmasters_diff_row.first_registration_cloud_placement_region.clone(),
            first_registration_cloud_placement_zone: storedmasters_diff_row.first_registration_cloud_placement_zone.clone(),
            first_registration_placement_uuid: storedmasters_diff_row.first_registration_placement_uuid.clone(),
            first_role: storedmasters_diff_row.first_role.clone(),
            second_instance_seqno: storedmasters.instance_instance_seqno,
            second_start_time_us: storedmasters.start_time_us,
            second_registration_cloud_placement_cloud: storedmasters.registration_cloud_placement_cloud,
            second_registration_cloud_placement_region: storedmasters.registration_cloud_placement_region,
            second_registration_cloud_placement_zone: storedmasters.registration_cloud_placement_zone,
            second_registration_placement_uuid: storedmasters.registration_placement_uuid,
            second_role: storedmasters.role,
        }
    }

    /// Tells in which data the two sides differ.
    pub fn changes(&self) -> (c: MasterChanges)
        ensures
            c == changes_of(self@),
    {
        MasterChanges {
            role: self.first_role != self.second_role,
            cloud: self.first_registration_cloud_placement_cloud
                != self.second_registration_cloud_placement_cloud,
            region: self.first_registration_cloud_placement_region
                != self.second_registration_cloud_placement_region,
            zone: self.first_registration_cloud_placement_zone
                != self.second_registration_cloud_placement_zone,
            placement_uuid: self.first_registration_placement_uuid
                != self.second_registration_placement_uuid,
            seqno: self.first_instance_seqno != self.second_instance_seqno,
            start_time: self.first_start_time_us != self.second_start_time_us,
        }
    }
}

/// An HTTP address of a master, as `host:port`.
pub struct PermanentUuidHttpAddress {
    pub permanent_uuid: String,
    pub hostname_port: String,
}

/// An RPC address of a master, as `host:port`.
pub struct PermanentUuidRpcAddress {
    pub permanent_uuid: String,
    pub hostname_port: String,
}

/// The model of an address of a master.
pub ghost struct UuidAddressView {
    pub permanent_uuid: Seq<char>,
    pub hostname_port: Seq<char>,
}

impl View for PermanentUuidHttpAddress {
    type V = UuidAddressView;

    open spec fn view(&self) -> UuidAddressView {
        UuidAddressView { permanent_uuid: self.permanent_uuid@, hostname_port: self.hostname_port@ }
    }
}

impl View for PermanentUuidRpcAddress {
    type V = UuidAddressView;

    open spec fn view(&self) -> UuidAddressView {
        UuidAddressView { permanent_uuid: self.permanent_uuid@, hostname_port: self.hostname_port@ }
    }
}

/// The models of a list of HTTP addresses.
pub open spec fn uuid_http_views(list: Seq<PermanentUuidHttpAddress>) -> Seq<UuidAddressView> {
    list.map_values(|a: PermanentUuidHttpAddress| a@)
}

/// The models of a list of RPC addresses.
pub open spec fn uuid_rpc_views(list: Seq<PermanentUuidRpcAddress>) -> Seq<UuidAddressView> {
    list.map_values(|a: PermanentUuidRpcAddress| a@)
}

/// The address that the row `row` holds, as `host:port` under the master's uuid.
pub open spec fn address_of_row(row: StoredAddressView) -> UuidAddressView {
    UuidAddressView {
        permanent_uuid: row.instance_permanent_uuid,
        hostname_port: host_port_text(row.host, row.port),
    }
}

/// The list of addresses after it has taken in `rows`, one after the other: a row counts
/// where the endpoint `leader` reported it, and its address is added unless the list holds it
/// already.
pub open spec fn addresses_after(
    base: Seq<UuidAddressView>,
    rows: Seq<StoredAddressView>,
    leader: Seq<char>,
) -> Seq<UuidAddressView>
    decreases rows.len(),
{
    if rows.len() == 0 {
        base
    } else {
        let before = addresses_after(base, rows.drop_last(), leader);
        let address = address_of_row(rows.last());
        if rows.last().hostname_port == leader && !before.contains(address) {
            before.push(address)
        } else {
            before
        }
    }
}

/// The addresses that `list` holds for the master `uuid`, in the order of the list.
pub open spec fn addresses_of(list: Seq<UuidAddressView>, uuid: Seq<char>) -> Seq<Seq<char>>
    decreases list.len(),
{
    if list.len() == 0 {
        Seq::empty()
    } else {
        let front = addresses_of(list.drop_last(), uuid);
        if list.last().permanent_uuid == uuid {
            front.push(list.last().hostname_port)
        } else {
            front
        }
    }
}

/// The rows that the endpoint `leader` reported.
pub open spec fn reported_by(leader: Seq<char>) -> spec_fn(StoredMasters) -> bool {
    |row: StoredMasters| row.hostname_port@ == leader
}

/// Tells whether the list holds the address.
fn holds_http_address(list: &Vec<PermanentUuidHttpAddress>, uuid: &String, address: &String) -> (b:
    bool)
    ensures
        b == uuid_http_views(list@).contains(
            UuidAddressView { permanent_uuid: uuid@, hostname_port: address@ },
        ),
{
    let ghost wanted = UuidAddressView { permanent_uuid: uuid@, hostname_port: address@ };
    let mut i: usize = 0;
    while i < list.len()
        invariant
            i <= list@.len(),
            wanted == (UuidAddressView { permanent_uuid: uuid@, hostname_port: address@ }),
            forall|j: int| 0 <= j < i ==> (#[trigger] uuid_http_views(list@)[j]) != wanted,
        decreases list@.len() - i,
    {
        if list[i].permanent_uuid == *uuid && list[i].hostname_port == *address {
            assert(uuid_http_views(list@)[i as int] == wanted);
            return true;
        }
        i += 1;
    }
    false
}

/// Tells whether the list holds the address.
fn holds_rpc_address(list: &Vec<PermanentUuidRpcAddress>, uuid: &String, address: &String) -> (b:
    bool)
    ensures
        b == uuid_rpc_views(list@).contains(
            UuidAddressView { permanent_uuid: uuid@, hostname_port: address@ },
        ),
{
    let ghost wanted = UuidAddressView { permanent_uuid: uuid@, hostname_port: address@ };
    let mut i: usize = 0;
    while i < list.len()
        invariant
            i <= list@.len(),
            wanted == (UuidAddressView { permanent_uuid: uuid@, hostname_port: address@ }),
            forall|j: int| 0 <= j < i ==> (#[trigger] uuid_rpc_views(list@)[j]) != wanted,
        decreases list@.len() - i,
    {
        if list[i].permanent_uuid == *uuid && list[i].hostname_port == *address {
            assert(uuid_rpc_views(list@)[i as int] == wanted);
            return true;
        }
        i += 1;
    }
    false
}

/// Takes the HTTP addresses that the leader reported into the list.
fn take_http_addresses(
    list: &mut Vec<PermanentUuidHttpAddress>,
    rows: &Vec<StoredHttpAddresses>,
    leader: &String,
)
    ensures
        uuid_http_views(final(list)@) == addresses_after(
            uuid_http_views(old(list)@),
            http_views(rows@),
            leader@,
        ),
{
    let ghost base = uuid_http_views(list@);
    let ghost all = http_views(rows@);
    let mut i: usize = 0;
    while i < rows.len()
        invariant
            i <= rows@.len(),
            all == http_views(rows@),
            uuid_http_views(list@) == addresses_after(base, all.take(i as int), leader@),
        decreases rows@.len() - i,
    {
        proof {
            assert(all.take(i + 1).drop_last() =~= all.take(i as int));
            assert(all.take(i + 1).last() == rows@[i as int]@);
        }
        let row = &rows[i];
        if row.hostname_port == *leader {
            let address = hostname_port(row.host.as_str(), row.port.as_str());
            if !holds_http_address(list, &row.instance_permanent_uuid, &address) {
                let ghost before = list@;
                list.push(
                    PermanentUuidHttpAddress {
                        permanent_uuid: row.instance_permanent_uuid.clone(),
                        hostname_port: address,
                    },
                );
                assert(uuid_http_views(list@) =~= uuid_http_views(before).push(
                    address_of_row(row@),
                ));
            }
        }
        i += 1;
    }
    assert(all.take(all.len() as int) =~= all);
}

/// Takes the RPC addresses that the leader reported into the list.
fn take_rpc_addresses(
    list: &mut Vec<PermanentUuidRpcAddress>,
    rows: &Vec<StoredRpcAddresses>,
    leader: &String,
)
    ensures
        uuid_rpc_views(final(list)@) == addresses_after(
            uuid_rpc_views(old(list)@),
            rpc_views(rows@),
            leader@,
        ),
{
    let ghost base = uuid_rpc_views(list@);
    let ghost all = rpc_views(rows@);
    let mut i: usize = 0;
    while i < rows.len()
        invariant
            i <= rows@.len(),
            all == rpc_views(rows@),
            uuid_rpc_views(list@) == addresses_after(base, all.take(i as int), leader@),
        decreases rows@.len() - i,
    {
        proof {
            assert(all.take(i + 1).drop_last() =~= all.take(i as int));
            assert(all.take(i + 1).last() == rows@[i as int]@);
        }
        let row = &rows[i];
        if row.hostname_port == *leader {
            let address = hostname_port(row.host.as_str(), row.port.as_str());
            if !holds_rpc_address(list, &row.instance_permanent_uuid, &address) {
                let ghost before = list@;
                list.push(
                    PermanentUuidRpcAddress {
                        permanent_uuid: row.instance_permanent_uuid.clone(),
                        hostname_port: address,
                    },
                );
                assert(uuid_rpc_views(list@) =~= uuid_rpc_views(before).push(address_of_row(row@)));
            }
        }
        i += 1;
    }
    assert(all.take(all.len() as int) =~= all);
}

/// Picks the rows that the leader reported, in their order.
fn rows_reported_by(rows: Vec<StoredMasters>, leader: &String) -> (picked: Vec<StoredMasters>)
    ensures
        picked@ == rows@.filter(reported_by(leader@)),
{
    let ghost all = rows@;
    let mut picked: Vec<StoredMasters> = Vec::new();
    proof {
        reveal(Seq::filter);
        assert(all.take(0).filter(reported_by(leader@)) =~= Seq::<StoredMasters>::empty());
    }
    for row in it: rows
        invariant
            it.seq() == all,
            picked@ == all.take(it.index() as int).filter(reported_by(leader@)),
    {
        proof {
            reveal(Seq::filter);
            let n = it.index() as int;
            assert(all.take(n + 1).drop_last() =~= all.take(n));
            assert(all.take(n + 1).last() == row);
        }
        if row.hostname_port == *leader {
            picked.push(row);
        }
    }
    assert(all.take(all.len() as int) =~= all);
    picked
}

/// The difference between two snapshots of the masters, as the master leader reports them.
pub struct SnapshotDiffBTreeMapsMasters {
    /// What the two snapshots hold of each master, by permanent uuid.
    pub btreemap_snapshotdiff_masters: DiffState<StoredMasters>,
    pub first_http_addresses: Vec<PermanentUuidHttpAddress>,
    pub second_http_addresses: Vec<PermanentUuidHttpAddress>,
    pub first_rpc_addresses: Vec<PermanentUuidRpcAddress>,
    pub second_rpc_addresses: Vec<PermanentUuidRpcAddress>,
    /// Whether the snapshot taken in last named a master leader.
    pub master_found: bool,
}

impl SnapshotDiffBTreeMapsMasters {
    /// The masters are held in order.
    pub open spec fn wf(&self) -> bool {
        self.btreemap_snapshotdiff_masters.wf()
    }

    /// The masters of the first snapshot, by permanent uuid.
    pub open spec fn first_round(&self) -> Map<Seq<char>, StoredMasters> {
        self.btreemap_snapshotdiff_masters.first_round()
    }

    /// The masters of the second snapshot, by permanent uuid.
    pub open spec fn second_round(&self) -> Map<Seq<char>, StoredMasters> {
        self.btreemap_snapshotdiff_masters.second_round()
    }

    /// A difference that has taken in no snapshot.
    pub fn new() -> (d: Self)
        ensures
            d.wf(),
            d.first_round() == Map::<Seq<char>, StoredMasters>::empty(),
            d.second_round() == Map::<Seq<char>, StoredMasters>::empty(),
            d.first_http_addresses@.len() == 0,
            d.second_http_addresses@.len() == 0,
            d.first_rpc_addresses@.len() == 0,
            d.second_rpc_addresses@.len() == 0,
            !d.master_found,
    {
        SnapshotDiffBTreeMapsMasters {
            btreemap_snapshotdiff_masters: DiffState::new(),
            first_http_addresses: Vec::new(),
            second_http_addresses: Vec::new(),
            first_rpc_addresses: Vec::new(),
            second_rpc_addresses: Vec::new(),
            master_found: false,
        }
    }

    /// Takes in the first snapshot. Only what the endpoint `master_leader` reported counts:
    /// its masters, the last row standing for a master that it reported twice, and their
    /// addresses. Without a leader nothing is taken in. The result names the masters that
    /// were reported twice, once for each row that replaced an earlier one.
    pub fn first_snapshot(
        &mut self,
        allstoredmasters: AllStoredMasters,
        master_leader: String,
    ) -> (collided: Vec<String>)
        requires
            old(self).wf(),
        ensures
            final(self).wf(),
            final(self).master_found == (master_leader@.len() > 0),
            final(self).second_round() == old(self).second_round(),
            final(self).second_http_addresses == old(self).second_http_addresses,
            final(self).second_rpc_addresses == old(self).second_rpc_addresses,
            master_leader@.len() == 0 ==> {
                &&& collided@.len() == 0
                &&& final(self).first_round() == old(self).first_round()
                &&& final(self).first_http_addresses == old(self).first_http_addresses
                &&& final(self).first_rpc_addresses == old(self).first_rpc_addresses
            },
            master_leader@.len() > 0 ==> {
                &&& crate::text::texts(collided@) == crate::diff::collisions(
                    old(self).first_round(),
                    allstoredmasters.stored_masters@.filter(reported_by(master_leader@)),
                )
                &&& final(self).first_round() == crate::diff::round_after(
                    old(self).first_round(),
                    allstoredmasters.stored_masters@.filter(reported_by(master_leader@)),
                )
                &&& uuid_http_views(final(self).first_http_addresses@) == addresses_after(
                    uuid_http_views(old(self).first_http_addresses@),
                    http_views(allstoredmasters.stored_http_addresses@),
                    master_leader@,
                )
                &&& uuid_rpc_views(final(self).first_rpc_addresses@) == addresses_after(
                    uuid_rpc_views(old(self).first_rpc_addresses@),
                    rpc_views(allstoredmasters.stored_rpc_addresses@),
                    master_leader@,
                )
            },
    {
        if master_leader.as_str().is_empty() {
            self.master_found = false;
            return Vec::new();
        }
        self.master_found = true;
        take_http_addresses(
            &mut self.first_http_addresses,
            &allstoredmasters.stored_http_addresses,
            &master_leader,
        );
        take_rpc_addresses(
            &mut self.first_rpc_addresses,
            &allstoredmasters.stored_rpc_addresses,
            &master_leader,
        );
        let picked = rows_reported_by(allstoredmasters.stored_masters, &master_leader);
        self.btreemap_snapshotdiff_masters.record_all_first(picked)
    }

    /// Takes in the second snapshot, as `first_snapshot` takes in the first.
    pub fn second_snapshot(
        &mut self,
        allstoredmasters: AllStoredMasters,
        master_leader: String,
    ) -> (collided: Vec<String>)
        requires
            old(self).wf(),
        ensures
            final(self).wf(),
            final(self).master_found == (master_leader@.len() > 0),
            final(self).first_round() == old(self).first_round(),
            final(self).first_http_addresses == old(self).first_http_addresses,
            final(self).first_rpc_addresses == old(self).first_rpc_addresses,
            master_leader@.len() == 0 ==> {
                &&& collided@.len() == 0
                &&& final(self).second_round() == old(self).second_round()
                &&& final(self).second_http_addresses == old(self).second_http_addresses
                &&& final(self).second_rpc_addresses == old(self).second_rpc_addresses
            },
            master_leader@.len() > 0 ==> {
                &&& crate::text::texts(collided@) == crate::diff::collisions(
                    old(self).second_round(),
                    allstoredmasters.stored_masters@.filter(reported_by(master_leader@)),
                )
                &&& final(self).second_round() == crate::diff::round_after(
                    old(self).second_round(),
                    allstoredmasters.stored_masters@.filter(reported_by(master_leader@)),
                )
                &&& uuid_http_views(final(self).second_http_addresses@) == addresses_after(
                    uuid_http_views(old(self).second_http_addresses@),
                    http_views(allstoredmasters.stored_http_addresses@),
                    master_leader@,
                )
                &&& uuid_rpc_views(final(self).second_rpc_addresses@) == addresses_after(
                    uuid_rpc_views(old(self).second_rpc_addresses@),
                    rpc_views(allstoredmasters.stored_rpc_addresses@),
                    master_leader@,
                )
            },
    {
        if master_leader.as_str().is_empty() {
            self.master_found = false;
            return Vec::new();
        }
        self.master_found = true;
        take_http_addresses(
            &mut self.second_http_addresses,
            &allstoredmasters.stored_http_addresses,
            &master_leader,
        );
        take_rpc_addresses(
            &mut self.second_rpc_addresses,
            &allstoredmasters.stored_rpc_addresses,
            &master_leader,
        );
        let picked = rows_reported_by(allstoredmasters.stored_masters, &master_leader);
        self.btreemap_snapshotdiff_masters.record_all_second(picked)
    }

    /// Computes the difference between two snapshots of the masters, each with the endpoint
    /// that was the master leader when it was taken.
    pub fn snapshot_diff(
        begin_snapshot: AllStoredMasters,
        begin_leader: String,
        end_snapshot: AllStoredMasters,
        end_leader: String,
    ) -> (d: Self)
        ensures
            d.wf(),
            d.master_found == (end_leader@.len() > 0),
            d.first_round() == (if begin_leader@.len() > 0 {
                crate::diff::round_map(
                    begin_snapshot.stored_masters@.filter(reported_by(begin_leader@)),
                )
            } else {
                Map::<Seq<char>, StoredMasters>::empty()
            }),
            d.second_round() == (if end_leader@.len() > 0 {
                crate::diff::round_map(end_snapshot.stored_masters@.filter(reported_by(end_leader@)))
            } else {
                Map::<Seq<char>, StoredMasters>::empty()
            }),
            uuid_http_views(d.first_http_addresses@) == (if begin_leader@.len() > 0 {
                addresses_after(
                    Seq::empty(),
                    http_views(begin_snapshot.stored_http_addresses@),
                    begin_leader@,
                )
            } else {
                Seq::empty()
            }),
            uuid_rpc_views(d.first_rpc_addresses@) == (if begin_leader@.len() > 0 {
                addresses_after(
                    Seq::empty(),
                    rpc_views(begin_snapshot.stored_rpc_addresses@),
                    begin_leader@,
                )
            } else {
                Seq::empty()
            }),
            uuid_http_views(d.second_http_addresses@) == (if end_leader@.len() > 0 {
                addresses_after(
                    Seq::empty(),
                    http_views(end_snapshot.stored_http_addresses@),
                    end_leader@,
                )
            } else {
                Seq::empty()
            }),
            uuid_rpc_views(d.second_rpc_addresses@) == (if end_leader@.len() > 0 {
                addresses_after(
                    Seq::empty(),
                    rpc_views(end_snapshot.stored_rpc_addresses@),
                    end_leader@,
                )
            } else {
                Seq::empty()
            }),
    {
        let mut d = SnapshotDiffBTreeMapsMasters::new();
        proof {
            crate::diff::lemma_round_after_nothing(
                begin_snapshot.stored_masters@.filter(reported_by(begin_leader@)),
            );
            crate::diff::lemma_round_after_nothing(
                end_snapshot.stored_masters@.filter(reported_by(end_leader@)),
            );
            assert(uuid_http_views(d.first_http_addresses@) =~= Seq::empty());
            assert(uuid_rpc_views(d.first_rpc_addresses@) =~= Seq::empty());
            assert(uuid_http_views(d.second_http_addresses@) =~= Seq::empty());
            assert(uuid_rpc_views(d.second_rpc_addresses@) =~= Seq::empty());
        }
        let _ = d.first_snapshot(begin_snapshot, begin_leader);
        let _ = d.second_snapshot(end_snapshot, end_leader);
        d
    }

    /// What is to be shown of the difference: nothing where no master leader was found, and
    /// otherwise one block for each master on which the snapshots do not agree, in ascending
    /// order of permanent uuid.
    pub fn print(self) -> (report: Option<Vec<MasterDiffBlock>>)
        requires
            self.wf(),
        ensures
            !self.master_found ==> report is None,
            self.master_found ==> report is Some && is_master_report(self, report->0@),
    {
        if !self.master_found {
            return None;
        }
        let ghost first = self.first_round();
        let ghost second = self.second_round();
        let entries = self.btreemap_snapshotdiff_masters.entries();
        let ghost all = entries@;
        let mut blocks: Vec<MasterDiffBlock> = Vec::new();
        for entry in it: entries
            invariant
                it.seq() == all,
                first == self.first_round(),
                second == self.second_round(),
                is_diff_of(first, second, all),
                forall|i: int| 0 <= i < all.len() ==> (#[trigger] all[i]).wf(),
                blocks@.len() == it.index(),
                forall|n: int|
                    0 <= n < blocks@.len() ==> (#[trigger] blocks@[n]).permanent_uuid@
                        == all[n].identity@ && block_matches(self, blocks@[n]),
        {
            let ghost n = it.index() as int;
            assert(all[n].wf());
            assert(reported(first, second, all[n].identity@));
            let kind = entry.kind();
            let gone = entry.second.is_none();
            let http_addresses = if gone {
                http_addresses_of(&self.first_http_addresses, &entry.identity)
            } else {
                http_addresses_of(&self.second_http_addresses, &entry.identity)
            };
            let rpc_addresses = if gone {
                rpc_addresses_of(&self.first_rpc_addresses, &entry.identity)
            } else {
                rpc_addresses_of(&self.second_rpc_addresses, &entry.identity)
            };
            let row = match entry.first {
                Some(before) => {
                    let side = SnapshotDiffStoredMasters::first_snapshot(before);
                    match entry.second {
                        Some(after) => SnapshotDiffStoredMasters::second_snapshot_existing(
                            &side,
                            after,
                        ),
                        None => side,
                    }
                },
                None => match entry.second {
                    Some(after) => SnapshotDiffStoredMasters::second_snapshot_new(after),
                    None => SnapshotDiffStoredMasters {
                        first_instance_seqno: 0,
                        first_start_time_us: 0,
                        first_registration_cloud_placement_cloud: String::new(),
                        first_registration_cloud_placement_region: String::new(),
                        first_registration_cloud_placement_zone: String::new(),
                        first_registration_placement_uuid: String::new(),
                        first_role: String::new(),
                        second_instance_seqno: 0,
                        second_start_time_us: 0,
                        second_registration_cloud_placement_cloud: String::new(),
                        second_registration_cloud_placement_region: String::new(),
                        second_registration_cloud_placement_zone: String::new(),
                        second_registration_placement_uuid: String::new(),
                        second_role: String::new(),
                    },
                },
            };
            let changes = row.changes();
            let block = MasterDiffBlock {
                permanent_uuid: entry.identity,
                kind,
                row,
                changes,
                http_addresses,
                rpc_addresses,
            };
            assert(block_matches(self, block));
            blocks.push(block);
        }
        proof {
            assert forall|id: Seq<char>| reported(first, second, id) implies exists|i: int|
                0 <= i < blocks@.len() && (#[trigger] blocks@[i]).permanent_uuid@ == id by {
                let i = choose|i: int| 0 <= i < all.len() && (#[trigger] all[i]).identity@ == id;
                assert(blocks@[i].permanent_uuid@ == id);
            }
            assert forall|i: int, j: int| 0 <= i < j < blocks@.len() implies text_lt(
                (#[trigger] blocks@[i]).permanent_uuid@,
                (#[trigger] blocks@[j]).permanent_uuid@,
            ) by {
                assert(text_lt(all[i].identity@, all[j].identity@));
            }
        }
        Some(blocks)
    }
}

/// What is shown of one master on which two snapshots do not agree.
pub struct MasterDiffBlock {
    pub permanent_uuid: String,
    /// Whether the master was added, removed or changed.
    pub kind: DiffKind,
    /// What the two snapshots hold of the master.
    pub row: SnapshotDiffStoredMasters,
    /// The data in which the two sides of the row differ.
    pub changes: MasterChanges,
    /// The HTTP addresses of the master: those of the first snapshot for a master that was
    /// removed, those of the second for any other.
    pub http_addresses: Vec<String>,
    /// The RPC addresses of the master, chosen as the HTTP addresses are.
    pub rpc_addresses: Vec<String>,
}

/// The block `block` shows what the difference `d` holds of its master.
pub open spec fn block_matches(d: SnapshotDiffBTreeMapsMasters, block: MasterDiffBlock) -> bool {
    let id = block.permanent_uuid@;
    let first = d.first_round().get(id);
    let second = d.second_round().get(id);
    &&& reported(d.first_round(), d.second_round(), id)
    &&& block.kind == (if first is None {
        DiffKind::Added
    } else if second is None {
        DiffKind::Removed
    } else {
        DiffKind::Changed
    })
    &&& block.row@.first == side_from(first)
    &&& block.row@.second == side_from(second)
    &&& block.changes == changes_of(block.row@)
    &&& crate::text::texts(block.http_addresses@) == addresses_of(
        uuid_http_views(
            if second is None {
                d.first_http_addresses@
            } else {
                d.second_http_addresses@
            },
        ),
        id,
    )
    &&& crate::text::texts(block.rpc_addresses@) == addresses_of(
        uuid_rpc_views(
            if second is None {
                d.first_rpc_addresses@
            } else {
                d.second_rpc_addresses@
            },
        ),
        id,
    )
}

/// `blocks` is what is shown of the difference `d`: one block for each master on which the
/// snapshots do not agree and for no other, in ascending order of permanent uuid.
pub open spec fn is_master_report(d: SnapshotDiffBTreeMapsMasters, blocks: Seq<MasterDiffBlock>) -> bool {
    &&& forall|i: int, j: int|
        0 <= i < j < blocks.len() ==> text_lt(
            (#[trigger] blocks[i]).permanent_uuid@,
            (#[trigger] blocks[j]).permanent_uuid@,
        )
    &&& forall|i: int| 0 <= i < blocks.len() ==> block_matches(d, #[trigger] blocks[i])
    &&& forall|id: Seq<char>|
        #![trigger d.first_round().contains_key(id)]
        #![trigger d.second_round().contains_key(id)]
        reported(d.first_round(), d.second_round(), id) ==> exists|i: int|
            0 <= i < blocks.len() && (#[trigger] blocks[i]).permanent_uuid@ == id
}

/// The HTTP addresses that the list holds for a master.
fn http_addresses_of(list: &Vec<PermanentUuidHttpAddress>, uuid: &String) -> (found: Vec<String>)
    ensures
        crate::text::texts(found@) == addresses_of(uuid_http_views(list@), uuid@),
{
    let ghost all = uuid_http_views(list@);
    let mut found: Vec<String> = Vec::new();
    let mut i: usize = 0;
    assert(crate::text::texts(found@) =~= addresses_of(all.take(0), uuid@));
    while i < list.len()
        invariant
            i <= list@.len(),
            all == uuid_http_views(list@),
            crate::text::texts(found@) == addresses_of(all.take(i as int), uuid@),
        decreases list@.len() - i,
    {
        proof {
            assert(all.take(i + 1).drop_last() =~= all.take(i as int));
            assert(all.take(i + 1).last() == list@[i as int]@);
        }
        if list[i].permanent_uuid == *uuid {
            let ghost before = found@;
            found.push(list[i].hostname_port.clone());
            assert(crate::text::texts(found@) =~= crate::text::texts(before).push(
                list@[i as int].hostname_port@,
            ));
        }
        i += 1;
    }
    assert(all.take(all.len() as int) =~= all);
    found
}

/// The RPC addresses that the list holds for a master.
fn rpc_addresses_of(list: &Vec<PermanentUuidRpcAddress>, uuid: &String) -> (found: Vec<String>)
    ensures
        crate::text::texts(found@) == addresses_of(uuid_rpc_views(list@), uuid@),
{
    let ghost all = uuid_rpc_views(list@);
    let mut found: Vec<String> = Vec::new();
    let mut i: usize = 0;
    assert(crate::text::texts(found@) =~= addresses_of(all.take(0), uuid@));
    while i < list.len()
        invariant
            i <= list@.len(),
            all == uuid_rpc_views(list@),
            crate::text::texts(found@) == addresses_of(all.take(i as int), uuid@),
        decreases list@.len() - i,
    {
        proof {
            assert(all.take(i + 1).drop_last() =~= all.take(i as int));
            assert(all.take(i + 1).last() == list@[i as int]@);
        }
        if list[i].permanent_uuid == *uuid {
            let ghost before = found@;
            found.push(list[i].hostname_port.clone());
            assert(crate::text::texts(found@) =~= crate::text::texts(before).push(
                list@[i as int].hostname_port@,
            ));
        }
        i += 1;
    }
    assert(all.take(all.len() as int) =~= all);
    found
}

/// What is shown of one master of a snapshot.
pub struct MasterBlock {
    /// Whether every line of the block names the endpoint that reported the master.
    pub details: bool,
    pub master: StoredMasters,
    /// The RPC addresses of the master, each as `host:port`.
    pub rpc_addresses: Vec<String>,
    /// The HTTP addresses of the master, each as `host:port`.
    pub http_addresses: Vec<String>,
    pub errors: Vec<StoredMasterError>,
}

/// The model of a `MasterBlock`.
pub ghost struct MasterBlockView {
    pub details: bool,
    pub master: StoredMastersView,
    pub rpc_addresses: Seq<Seq<char>>,
    pub http_addresses: Seq<Seq<char>>,
    pub errors: Seq<StoredMasterErrorView>,
}

impl View for MasterBlock {
    type V = MasterBlockView;

    open spec fn view(&self) -> MasterBlockView {
        MasterBlockView {
            details: self.details,
            master: self.master@,
            rpc_addresses: crate::text::texts(self.rpc_addresses@),
            http_addresses: crate::text::texts(self.http_addresses@),
            errors: error_views(self.errors@),
        }
    }
}

/// The models of a sequence of blocks.
pub open spec fn block_views(blocks: Seq<MasterBlock>) -> Seq<MasterBlockView> {
    blocks.map_values(|b: MasterBlock| b@)
}

/// The addresses, each as `host:port`, that the endpoint `hostname_port` reported for the
/// master `uuid`, in the order of the rows.
pub open spec fn row_addresses(
    rows: Seq<StoredAddressView>,
    hostname_port: Seq<char>,
    uuid: Seq<char>,
) -> Seq<Seq<char>>
    decreases rows.len(),
{
    if rows.len() == 0 {
        Seq::empty()
    } else {
        let front = row_addresses(rows.drop_last(), hostname_port, uuid);
        let row = rows.last();
        if row.hostname_port == hostname_port && row.instance_permanent_uuid == uuid {
            front.push(host_port_text(row.host, row.port))
        } else {
            front
        }
    }
}

/// The errors that the endpoint `hostname_port` reported for the master `uuid`, in the order
/// of the rows.
pub open spec fn row_errors(
    rows: Seq<StoredMasterErrorView>,
    hostname_port: Seq<char>,
    uuid: Seq<char>,
) -> Seq<StoredMasterErrorView>
    decreases rows.len(),
{
    if rows.len() == 0 {
        Seq::empty()
    } else {
        let front = row_errors(rows.drop_last(), hostname_port, uuid);
        let row = rows.last();
        if row.hostname_port == hostname_port && row.instance_permanent_uuid == uuid {
            front.push(row)
        } else {
            front
        }
    }
}

/// The block that shows the master `master` of the snapshot `all`.
pub open spec fn shown_block(
    all: AllStoredMasters,
    master: StoredMastersView,
    details: bool,
) -> MasterBlockView {
    MasterBlockView {
        details,
        master,
        rpc_addresses: row_addresses(
            rpc_views(all.stored_rpc_addresses@),
            master.hostname_port,
            master.instance_permanent_uuid,
        ),
        http_addresses: row_addresses(
            http_views(all.stored_http_addresses@),
            master.hostname_port,
            master.instance_permanent_uuid,
        ),
        errors: row_errors(
            error_views(all.stored_master_error@),
            master.hostname_port,
            master.instance_permanent_uuid,
        ),
    }
}

/// The blocks that show the snapshot `all`: with `details` one for every master row, and
/// without one for every master row that the endpoint `leader` reported; in the order of the
/// rows `masters`.
pub open spec fn shown_blocks(
    all: AllStoredMasters,
    masters: Seq<StoredMastersView>,
    leader: Seq<char>,
    details: bool,
) -> Seq<MasterBlockView>
    decreases masters.len(),
{
    if masters.len() == 0 {
        Seq::empty()
    } else {
        let front = shown_blocks(all, masters.drop_last(), leader, details);
        if details || masters.last().hostname_port == leader {
            front.push(shown_block(all, masters.last(), details))
        } else {
            front
        }
    }
}

/// Copies a master row.
fn copy_master(row: &StoredMasters) -> (copy: StoredMasters)
    ensures
        copy@ == row@,
{
    StoredMasters {
        hostname_port: row.hostname_port.clone(),
        timestamp: row.timestamp,
        instance_permanent_uuid: row.instance_permanent_uuid.clone(),
        instance_instance_seqno: row.instance_instance_seqno,
        start_time_us: row.start_time_us,
        registration_cloud_placement_cloud: row.registration_cloud_placement_cloud.clone(),
        registration_cloud_placement_region: row.registration_cloud_placement_region.clone(),
        registration_cloud_placement_zone: row.registration_cloud_placement_zone.clone(),
        registration_placement_uuid: row.registration_placement_uuid.clone(),
        role: row.role.clone(),
    }
}

/// Copies an error row.
fn copy_error(row: &StoredMasterError) -> (copy: StoredMasterError)
    ensures
        copy@ == row@,
{
    StoredMasterError {
        hostname_port: row.hostname_port.clone(),
        timestamp: row.timestamp,
        instance_permanent_uuid: row.instance_permanent_uuid.clone(),
        code: row.code.clone(),
        message: row.message.clone(),
        posix_code: row.posix_code,
        source_file: row.source_file.clone(),
        source_line: row.source_line,
        errors: row.errors.clone(),
    }
}

impl AllStoredMasters {
    /// The RPC addresses that an endpoint reported for a master.
    fn rpc_addresses_for(&self, hostname_port: &String, uuid: &String) -> (found: Vec<String>)
        ensures
            crate::text::texts(found@) == row_addresses(
                rpc_views(self.stored_rpc_addresses@),
                hostname_port@,
                uuid@,
            ),
    {
        let ghost all = rpc_views(self.stored_rpc_addresses@);
        let mut found: Vec<String> = Vec::new();
        let mut i: usize = 0;
        assert(crate::text::texts(found@) =~= row_addresses(all.take(0), hostname_port@, uuid@));
        while i < self.stored_rpc_addresses.len()
            invariant
                i <= self.stored_rpc_addresses@.len(),
                all == rpc_views(self.stored_rpc_addresses@),
                crate::text::texts(found@) == row_addresses(
                    all.take(i as int),
                    hostname_port@,
                    uuid@,
                ),
            decreases self.stored_rpc_addresses@.len() - i,
        {
            proof {
                assert(all.take(i + 1).drop_last() =~= all.take(i as int));
                assert(all.take(i + 1).last() == self.stored_rpc_addresses@[i as int]@);
            }
            let row = &self.stored_rpc_addresses[i];
            if row.hostname_port == *hostname_port && row.instance_permanent_uuid == *uuid {
                let ghost before = found@;
                let address = crate::collector::hostname_port(row.host.as_str(), row.port.as_str());
                found.push(address);
                assert(crate::text::texts(found@) =~= crate::text::texts(before).push(
                    host_port_text(row.host@, row.port@),
                ));
            }
            i += 1;
        }
        assert(all.take(all.len() as int) =~= all);
        found
    }

    /// The HTTP addresses that an endpoint reported for a master.
    fn http_addresses_for(&self, hostname_port: &String, uuid: &String) -> (found: Vec<String>)
        ensures
            crate::text::texts(found@) == row_addresses(
                http_views(self.stored_http_addresses@),
                hostname_port@,
                uuid@,
            ),
    {
        let ghost all = http_views(self.stored_http_addresses@);
        let mut found: Vec<String> = Vec::new();
        let mut i: usize = 0;
        assert(crate::text::texts(found@) =~= row_addresses(all.take(0), hostname_port@, uuid@));
        while i < self.stored_http_addresses.len()
            invariant
                i <= self.stored_http_addresses@.len(),
                all == http_views(self.stored_http_addresses@),
                crate::text::texts(found@) == row_addresses(
                    all.take(i as int),
                    hostname_port@,
                    uuid@,
                ),
            decreases self.stored_http_addresses@.len() - i,
        {
            proof {
                assert(all.take(i + 1).drop_last() =~= all.take(i as int));
                assert(all.take(i + 1).last() == self.stored_http_addresses@[i as int]@);
            }
            let row = &self.stored_http_addresses[i];
            if row.hostname_port == *hostname_port && row.instance_permanent_uuid == *uuid {
                let ghost before = found@;
                let address = crate::collector::hostname_port(row.host.as_str(), row.port.as_str());
                found.push(address);
                assert(crate::text::texts(found@) =~= crate::text::texts(before).push(
                    host_port_text(row.host@, row.port@),
                ));
            }
            i += 1;
        }
        assert(all.take(all.len() as int) =~= all);
        found
    }

    /// The errors that an endpoint reported for a master.
    fn errors_for(&self, hostname_port: &String, uuid: &String) -> (found: Vec<StoredMasterError>)
        ensures
            error_views(found@) == row_errors(
                error_views(self.stored_master_error@),
                hostname_port@,
                uuid@,
            ),
    {
        let ghost all = error_views(self.stored_master_error@);
        let mut found: Vec<StoredMasterError> = Vec::new();
        let mut i: usize = 0;
        assert(error_views(found@) =~= row_errors(all.take(0), hostname_port@, uuid@));
        while i < self.stored_master_error.len()
            invariant
                i <= self.stored_master_error@.len(),
                all == error_views(self.stored_master_error@),
                error_views(found@) == row_errors(all.take(i as int), hostname_port@, uuid@),
            decreases self.stored_master_error@.len() - i,
        {
            proof {
                assert(all.take(i + 1).drop_last() =~= all.take(i as int));
                assert(all.take(i + 1).last() == self.stored_master_error@[i as int]@);
            }
            let row = &self.stored_master_error[i];
            if row.hostname_port == *hostname_port && row.instance_permanent_uuid == *uuid {
                let ghost before = found@;
                found.push(copy_error(row));
                assert(error_views(found@) =~= error_views(before).push(row@));
            }
            i += 1;
        }
        assert(all.take(all.len() as int) =~= all);
        found
    }

    /// What is to be shown of the masters of a snapshot: without `details_enable` the masters
    /// as the endpoint `leader_hostname` reported them, with it the masters as every endpoint
    /// reported them, each line naming the endpoint. Each master comes with the addresses and
    /// errors that the same endpoint reported for it.
    pub fn print(&self, leader_hostname: &String, details_enable: bool) -> (blocks: Vec<
        MasterBlock,
    >)
        ensures
            block_views(blocks@) == shown_blocks(
                *self,
                master_views(self.stored_masters@),
                leader_hostname@,
                details_enable,
            ),
    {
        let ghost all = master_views(self.stored_masters@);
        let mut blocks: Vec<MasterBlock> = Vec::new();
        let mut i: usize = 0;
        assert(block_views(blocks@) =~= shown_blocks(
            *self,
            all.take(0),
            leader_hostname@,
            details_enable,
        ));
        while i < self.stored_masters.len()
            invariant
                i <= self.stored_masters@.len(),
                all == master_views(self.stored_masters@),
                block_views(blocks@) == shown_blocks(
                    *self,
                    all.take(i as int),
                    leader_hostname@,
                    details_enable,
                ),
            decreases self.stored_masters@.len() - i,
        {
            proof {
                assert(all.take(i + 1).drop_last() =~= all.take(i as int));
                assert(all.take(i + 1).last() == self.stored_masters@[i as int]@);
            }
            let row = &self.stored_masters[i];
            if details_enable || row.hostname_port == *leader_hostname {
                let ghost before = blocks@;
                let block = MasterBlock {
                    details: details_enable,
                    master: copy_master(row),
                    rpc_addresses: self.rpc_addresses_for(
                        &row.hostname_port,
                        &row.instance_permanent_uuid,
                    ),
                    http_addresses: self.http_addresses_for(
                        &row.hostname_port,
                        &row.instance_permanent_uuid,
                    ),
                    errors: self.errors_for(&row.hostname_port, &row.instance_permanent_uuid),
                };
                assert(block@ == shown_block(*self, row@, details_enable));
                blocks.push(block);
                assert(block_views(blocks@) =~= block_views(before).push(
                    shown_block(*self, row@, details_enable),
                ));
            }
            i += 1;
        }
        assert(all.take(all.len() as int) =~= all);
        blocks
    }
}

/// The path, below an endpoint's address, at which it tells whether it is the master leader.
pub const IS_LEADER_PATH: &'static str = "api/v1/is-leader";

/// The name under which a snapshot keeps the answers to that question.
pub const IS_LEADER_FILE: &'static str = "isleader";

/// The answer of one endpoint to the question whether it is the master leader.
pub struct StoredIsLeader {
    pub hostname_port: String,
    pub timestamp: Timestamp,
    /// `OK` from the leader; anything else from any other endpoint.
    pub status: String,
}

/// The status by which the master leader makes itself known.
pub open spec fn leader_status() -> Seq<char> {
    seq!['O', 'K']
}

/// The endpoint that is the master leader according to the first `n` answers: the first of
/// them that answered `OK` under a name that is not empty, or the empty text where none did.
pub open spec fn leader_among(answers: Seq<StoredIsLeader>, n: int) -> Seq<char>
    decreases n,
{
    if n <= 0 {
        Seq::empty()
    } else if leader_among(answers, n - 1).len() > 0 || answers[n - 1].status@ != leader_status() {
        leader_among(answers, n - 1)
    } else {
        answers[n - 1].hostname_port@
    }
}

/// Names the master leader: the first endpoint that answered `OK` under a name that is not
/// empty, or the empty text where there is none.
pub fn return_leader(answers: &Vec<StoredIsLeader>) -> (leader: String)
    ensures
        leader@ == leader_among(answers@, answers@.len() as int),
{
    proof {
        reveal_strlit("OK");
    }
    let ok = String::from_str("OK");
    assert(ok@ =~= leader_status());
    let mut i: usize = 0;
    while i < answers.len()
        invariant
            i <= answers@.len(),
            ok@ == leader_status(),
            leader_among(answers@, i as int).len() == 0,
        decreases answers@.len() - i,
    {
        let is_leader = answers[i].status == ok;
        if is_leader && !answers[i].hostname_port.as_str().is_empty() {
            let leader = answers[i].hostname_port.clone();
            proof {
                lemma_leader_stays(answers@, i + 1, answers@.len() as int);
            }
            return leader;
        }
        i += 1;
    }
    String::new()
}

/// Once an endpoint has been found to be the leader, later answers do not change that.
proof fn lemma_leader_stays(answers: Seq<StoredIsLeader>, found: int, n: int)
    requires
        0 <= found <= n,
        leader_among(answers, found).len() > 0,
    ensures
        leader_among(answers, n) == leader_among(answers, found),
    decreases n - found,
{
    if found < n {
        lemma_leader_stays(answers, found, n - 1);
    }
}

} // verus!
