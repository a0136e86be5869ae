use materialize::storage_client::frontier::Frontier;
use materialize::storage_client::policy::ReadPolicy;

#[test]
fn lag_writes_by_zero() {
    let policy = ReadPolicy::lag_writes_by(0, 0);
    let write_frontier = Frontier::from_elem(5);
    assert!(policy.frontier(&write_frontier).same(&write_frontier));
}
