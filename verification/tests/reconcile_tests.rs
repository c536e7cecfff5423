use dnsmdcd::api::start_add;
use dnsmdcd::api::start_delete;
use dnsmdcd::codec::encode_list;
use dnsmdcd::reconcile::ApplyOutcome;
use dnsmdcd::reconcile::ReconcileAction;
use dnsmdcd::reconcile::Reconciler;

/// Drive a reconciliation against an in-memory stand-in for the backing
/// file, with the restart outcomes scripted: every persist succeeds, and
/// the n-th restart succeeds when `restarts[n]` holds.
fn drive(mut rec: Reconciler, disk: &mut String, restarts: &[bool]) -> ApplyOutcome {
    let mut restart_count = 0;
    loop {
        match rec.pending_action() {
            ReconcileAction::PersistUpdated => {
                *disk = encode_list(&rec.updated);
                rec.on_persist_result(true);
            }
            ReconcileAction::PersistOriginal => {
                *disk = encode_list(&rec.original);
                rec.on_persist_result(true);
            }
            ReconcileAction::Restart => {
                let ok = restarts[restart_count];
                restart_count += 1;
                rec.on_restart_result(ok);
            }
            ReconcileAction::Report => {
                return rec.outcome().expect("a report action means a terminal phase");
            }
        }
    }
}

#[test]
fn add_with_successful_reload_commits() {
    let file = "";
    let token = "sekrit\n";
    let rec = start_add(
        file,
        token,
        "sekrit",
        String::from("host.example.com"),
        String::from("10.0.0.5"),
    )
    .expect("correct secret starts the mutation");
    let mut disk = String::from(file);
    let outcome = drive(rec, &mut disk, &[true]);
    assert_eq!(outcome, ApplyOutcome::Success);
    assert_eq!(disk, "address=/host.example.com/10.0.0.5\n");
}

#[test]
fn add_with_failed_reload_rolls_back() {
    let file = "address=/a/1.1.1.1\n";
    let token = "sekrit\n";
    let rec = start_add(
        file,
        token,
        "sekrit",
        String::from("b"),
        String::from("2.2.2.2"),
    )
    .expect("correct secret starts the mutation");
    let mut disk = String::from(file);
    let outcome = drive(rec, &mut disk, &[false, true]);
    assert_eq!(outcome, ApplyOutcome::Conflict);
    assert_eq!(disk, "address=/a/1.1.1.1\n");
}

#[test]
fn rollback_holds_even_when_second_restart_fails() {
    let file = "address=/a/1.1.1.1\n";
    let rec = start_add(
        file,
        "sekrit\n",
        "sekrit",
        String::from("b"),
        String::from("2.2.2.2"),
    )
    .expect("correct secret starts the mutation");
    let mut disk = String::from(file);
    let outcome = drive(rec, &mut disk, &[false, false]);
    assert_eq!(outcome, ApplyOutcome::Conflict);
    assert_eq!(disk, "address=/a/1.1.1.1\n");
}

#[test]
fn delete_with_successful_reload_commits() {
    let file = "address=/a/1.1.1.1\naddress=/b/2.2.2.2\n";
    let rec = start_delete(file, "sekrit\n", "sekrit", "a", "1.1.1.1")
        .expect("correct secret starts the mutation");
    let mut disk = String::from(file);
    let outcome = drive(rec, &mut disk, &[true]);
    assert_eq!(outcome, ApplyOutcome::Success);
    assert_eq!(disk, "address=/b/2.2.2.2\n");
}

#[test]
fn failed_first_persist_aborts_without_reload() {
    let rec = start_add(
        "",
        "sekrit\n",
        "sekrit",
        String::from("a"),
        String::from("1.1.1.1"),
    )
    .expect("correct secret starts the mutation");
    let mut rec = rec;
    assert_eq!(rec.pending_action(), ReconcileAction::PersistUpdated);
    rec.on_persist_result(false);
    assert_eq!(rec.pending_action(), ReconcileAction::Report);
    assert_eq!(rec.outcome(), Some(ApplyOutcome::WriteFailed));
}
