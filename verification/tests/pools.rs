use pamir::blocks::BlockSet;
use pamir::cylinders::SingleCylinderSet;
use pamir::primitives::Coalition;
use pamir::rupees::RupeeSet;

#[test]
fn rupees_take_up_to_clamps() {
    // take_up_to(n) on a pool of c yields min(n, c) and leaves c - min(n, c)
    let mut pool = RupeeSet::new(4);
    let taken = pool.take_up_to(3);
    assert_eq!(taken.count(), 3);
    assert_eq!(pool.count(), 1);
    let taken = pool.take_up_to(5);
    assert_eq!(taken.count(), 1);
    assert_eq!(pool.count(), 0);
    let taken = pool.take_up_to(0);
    assert_eq!(taken.count(), 0);
    assert_eq!(pool.count(), 0);
}

#[test]
fn rupees_take_exactly_fails_untouched() {
    let mut pool = RupeeSet::new(2);
    assert!(pool.take_exactly(3).is_none());
    assert_eq!(pool.count(), 2);
    let taken = pool.take_exactly(2).unwrap();
    assert_eq!(taken.count(), 2);
    assert_eq!(pool.count(), 0);
}

#[test]
fn rupees_take_one() {
    let mut pool = RupeeSet::new(1);
    assert!(pool.take_one().is_some());
    assert!(pool.take_one().is_none());
    assert_eq!(pool.count(), 0);
}

#[test]
fn rupees_done_detects_leftovers() {
    assert!(RupeeSet::empty().done().is_ok());
    let leftover = RupeeSet::new(2).done();
    assert!(leftover.is_err());
    assert_eq!(leftover.unwrap_err().count(), 2);
}

#[test]
fn blocks_tray_and_take_up_to() {
    let mut tray = BlockSet::new_tray();
    assert_eq!(tray.count(Coalition::Britain), 12);
    assert_eq!(tray.count(Coalition::Russia), 12);
    assert_eq!(tray.count(Coalition::Afghanistan), 12);
    let taken = tray.take_up_to(5, Coalition::Britain);
    assert_eq!(taken.count(Coalition::Britain), 5);
    assert_eq!(taken.count(Coalition::Russia), 0);
    assert_eq!(tray.count(Coalition::Britain), 7);
    // asking for more than is held empties the category
    let rest = tray.take_up_to(100, Coalition::Britain);
    assert_eq!(rest.count(Coalition::Britain), 7);
    assert_eq!(tray.count(Coalition::Britain), 0);
}

#[test]
fn blocks_conserved_across_moves() {
    // conservation: merging and extracting only moves blocks around
    let mut bank = BlockSet::new_tray();
    let mut region = BlockSet::empty();
    let moved = bank.take_up_to(4, Coalition::Russia);
    region.add(moved);
    let mut all = bank.take_all();
    all.add(region.take_all());
    for c in [Coalition::Britain, Coalition::Russia, Coalition::Afghanistan] {
        assert_eq!(all.count(c), 12);
        assert_eq!(bank.count(c), 0);
        assert_eq!(region.count(c), 0);
    }
}

#[test]
fn cylinders_merge_and_bank() {
    let bank = SingleCylinderSet::new_bank();
    assert_eq!(bank.count(), 10);
    let merged = bank.merge(SingleCylinderSet::new());
    assert_eq!(merged.count(), 10);
    let mut a = SingleCylinderSet::new();
    a.add(merged);
    assert_eq!(a.count(), 10);
}

#[test]
fn unique_max_finds_plurality_winner() {
    let keys: Vec<i8> = vec![3, 7, 2];
    assert_eq!(pamir::util::unique_max_by_key(&keys), Some(1));
    let tied: Vec<i8> = vec![7, 7, 2];
    assert_eq!(pamir::util::unique_max_by_key(&tied), None);
    let empty: Vec<i8> = vec![];
    assert_eq!(pamir::util::unique_max_by_key(&empty), None);
}
