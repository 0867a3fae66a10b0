use serverstats::delta::Derived;
use serverstats::engine::{replay, Engine};
use serverstats::series::SeriesAccumulator;
use serverstats::snapshot::{DiskStat, EntityKey, NetStat, RawSnapshot, Sample};
use serverstats::store::CounterStore;

fn disk_snap(ts: u64, name: &str, reads: u64) -> RawSnapshot {
    RawSnapshot {
        timestamp: ts,
        sample: Sample::Disk(DiskStat {
            major: 8,
            minor: 0,
            name: name.to_string(),
            reads,
            reads_merged: 0,
            sectors_read: 0,
            read_time_ms: 0,
            writes: 0,
            writes_merged: 0,
            sectors_written: 0,
            write_time_ms: 0,
            io_in_progress: 0,
            io_time_ms: 0,
            weighted_io_time_ms: 0,
            discards: 0,
            discards_merged: 0,
            sectors_discarded: 0,
            discard_time_ms: 0,
        }),
    }
}

fn net_snap(ts: u64, iface: &str, rx_bytes: u64) -> RawSnapshot {
    RawSnapshot {
        timestamp: ts,
        sample: Sample::Net {
            iface: iface.to_string(),
            stat: NetStat {
                rx_bytes,
                tx_bytes: 0,
                rx_pkts: 0,
                tx_pkts: 0,
                rx_errs: 0,
                tx_errs: 0,
                rx_drop: 0,
                tx_drop: 0,
            },
        },
    }
}

fn disk_key(name: &str) -> EntityKey {
    EntityKey::Disk { major: 8, minor: 0, name: name.to_string() }
}

fn stream() -> Vec<RawSnapshot> {
    vec![
        disk_snap(0, "sda", 0),
        disk_snap(0, "sdb", 100),
        net_snap(0, "eth0", 0),
        disk_snap(10, "sda", 50),
        disk_snap(10, "sdb", 100),
        net_snap(10, "eth0", 1000),
        disk_snap(10, "sda", 70),
        disk_snap(20, "sda", 90),
        disk_snap(15, "sdb", 400),
        net_snap(20, "eth0", 500),
    ]
}

fn reads_per_second(all: &SeriesAccumulator, key: &EntityKey) -> Vec<(u64, u64, i128)> {
    let series = all.find(key).expect("a series");
    series
        .points
        .iter()
        .map(|m| match m.derived {
            Derived::Disk(_, rates) => (m.timestamp, m.dt, rates.rps.num),
            _ => panic!("not a disk metric"),
        })
        .collect()
}

#[test]
fn the_first_snapshot_of_an_entity_yields_no_pair() {
    let mut store = CounterStore::new();
    assert_eq!(store.len(), 0);
    assert!(store.update(disk_key("sda"), disk_snap(0, "sda", 1)).is_none());
    assert_eq!(store.len(), 1);
    assert!(store.update(disk_key("sdb"), disk_snap(0, "sdb", 2)).is_none());
    assert_eq!(store.len(), 2);
    assert_eq!(store.get(&disk_key("sda")), Some(&disk_snap(0, "sda", 1)));
    assert!(store.get(&disk_key("sdc")).is_none());
}

#[test]
fn a_later_snapshot_is_paired_with_the_one_before_and_replaces_it() {
    let mut store = CounterStore::new();
    store.update(disk_key("sda"), disk_snap(0, "sda", 1));
    store.update(disk_key("sdb"), disk_snap(0, "sdb", 2));
    let (prior, current) = store.update(disk_key("sda"), disk_snap(5, "sda", 9)).unwrap();
    assert_eq!(prior, disk_snap(0, "sda", 1));
    assert_eq!(current, disk_snap(5, "sda", 9));
    assert_eq!(store.len(), 2);
    assert_eq!(store.get(&disk_key("sda")), Some(&disk_snap(5, "sda", 9)));
    assert_eq!(store.get(&disk_key("sdb")), Some(&disk_snap(0, "sdb", 2)));
    let (prior, _) = store.update(disk_key("sda"), disk_snap(6, "sda", 10)).unwrap();
    assert_eq!(prior, disk_snap(5, "sda", 9));
}

#[test]
fn the_store_advances_even_when_time_stands_still() {
    let mut engine = Engine::new();
    assert!(engine.feed(disk_snap(10, "sda", 0)).is_none());
    assert!(engine.feed(disk_snap(10, "sda", 40)).is_none());
    let m = engine.feed(disk_snap(20, "sda", 60)).expect("a metric");
    assert_eq!(m.dt, 10);
    match m.derived {
        Derived::Disk(deltas, _) => assert_eq!(deltas.reads, 20),
        _ => panic!("not a disk metric"),
    }
}

#[test]
fn the_store_advances_even_when_time_runs_backwards() {
    let mut engine = Engine::new();
    assert!(engine.feed(disk_snap(100, "sda", 0)).is_none());
    assert!(engine.feed(disk_snap(50, "sda", 10)).is_none());
    let m = engine.feed(disk_snap(60, "sda", 30)).expect("a metric");
    assert_eq!(m.dt, 10);
    assert_eq!(m.timestamp, 60);
}

#[test]
fn series_are_kept_per_entity_in_order_of_arrival() {
    let all = replay(stream());
    assert_eq!(all.len(), 3);
    assert_eq!(all.at(0).key, disk_key("sda"));
    assert_eq!(all.at(1).key, disk_key("sdb"));
    assert_eq!(all.at(2).key, EntityKey::Net { iface: "eth0".to_string() });
    assert_eq!(reads_per_second(&all, &disk_key("sda")), vec![(10, 10, 50), (20, 10, 20)]);
    assert_eq!(reads_per_second(&all, &disk_key("sdb")), vec![(10, 10, 0), (15, 5, 300)]);
    let eth0 = all.find(&EntityKey::Net { iface: "eth0".to_string() }).unwrap();
    assert_eq!(eth0.points.len(), 2);
    match eth0.points[1].derived {
        Derived::Net(deltas, rates) => {
            assert_eq!(deltas.rx_bytes, 0);
            assert_eq!(rates.rx_bytes.num, 0);
        }
        _ => panic!("not a network metric"),
    }
    assert!(all.find(&disk_key("sdz")).is_none());
}

#[test]
fn replaying_the_same_stream_yields_identical_series() {
    let first = replay(stream());
    let second = replay(stream());
    assert_eq!(first.len(), second.len());
    for i in 0..first.len() {
        assert_eq!(first.at(i), second.at(i));
    }
}

#[test]
fn feeding_one_by_one_is_replaying() {
    let mut engine = Engine::new();
    let mut emitted = 0;
    for snap in stream() {
        if engine.feed(snap).is_some() {
            emitted += 1;
        }
    }
    assert_eq!(emitted, 6);
    let fed = engine.into_series();
    let replayed = replay(stream());
    assert_eq!(fed.len(), replayed.len());
    for i in 0..fed.len() {
        assert_eq!(fed.at(i), replayed.at(i));
    }
}

#[test]
fn an_empty_stream_yields_no_series() {
    let all = replay(Vec::new());
    assert_eq!(all.len(), 0);
    let engine = Engine::new();
    assert_eq!(engine.series().len(), 0);
}

#[test]
fn a_single_sample_of_each_entity_yields_no_series() {
    let all = replay(vec![disk_snap(0, "sda", 1), disk_snap(0, "sdb", 1)]);
    assert_eq!(all.len(), 0);
}
