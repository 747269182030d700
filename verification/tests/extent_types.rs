use modernfs_core::extent::{AllocStats, Extent, Ratio};

fn as_f32(r: Ratio) -> f32 {
    r.numerator as f32 / r.denominator as f32
}

#[test]
fn test_extent_basic() {
    let e = Extent::new(100, 50);
    assert_eq!(e.start, 100);
    assert_eq!(e.length, 50);
    assert_eq!(e.end(), 150);
}

#[test]
fn test_extent_contains() {
    let e = Extent::new(100, 50);
    assert!(e.contains(100));
    assert!(e.contains(149));
    assert!(!e.contains(150));
    assert!(!e.contains(99));
}

#[test]
fn test_extent_overlaps() {
    let e1 = Extent::new(100, 50);
    let e2 = Extent::new(120, 30);
    let e3 = Extent::new(200, 50);

    assert!(e1.overlaps(&e2));
    assert!(e2.overlaps(&e1));
    assert!(!e1.overlaps(&e3));
}

#[test]
fn test_alloc_stats() {
    let mut stats = AllocStats::new(1000);
    assert_eq!(stats.free_blocks, 1000);
    assert_eq!(as_f32(stats.utilization()), 0.0);

    stats.allocated_blocks = 300;
    stats.free_blocks = 700;
    assert_eq!(as_f32(stats.utilization()), 0.3);
}

#[test]
fn extent_contains_is_total_near_the_top() {
    let e = Extent::new(u32::MAX - 1, 5);
    assert!(e.contains(u32::MAX - 1));
    assert!(e.contains(u32::MAX));
    assert!(!e.contains(0));
    assert!(!e.contains(u32::MAX - 2));
}

#[test]
fn extent_overlaps_touching_runs_do_not_overlap() {
    let a = Extent::new(10, 5);
    let b = Extent::new(15, 5);
    assert!(!a.overlaps(&b));
    assert!(!b.overlaps(&a));
    let c = Extent::new(14, 1);
    assert!(a.overlaps(&c));
    let empty = Extent::new(12, 0);
    assert!(!empty.overlaps(&empty));
}

#[test]
fn alloc_stats_new_is_all_free() {
    let stats = AllocStats::new(42);
    assert_eq!(
        stats,
        AllocStats {
            total_blocks: 42,
            free_blocks: 42,
            allocated_blocks: 0,
            alloc_count: 0,
            free_count: 0,
        }
    );
}

#[test]
fn utilization_of_empty_region_is_zero() {
    let stats = AllocStats::new(0);
    assert_eq!(stats.utilization(), Ratio { numerator: 0, denominator: 1 });
    let mut half = AllocStats::new(8);
    half.allocated_blocks = 4;
    half.free_blocks = 4;
    assert_eq!(half.utilization(), Ratio { numerator: 4, denominator: 8 });
}

#[test]
fn extent_as_text() {
    assert_eq!(Extent::new(100, 50).describe(), "Extent[100, +50]");
    assert_eq!(Extent::new(0, 0).describe(), "Extent[0, +0]");
    assert_eq!(Extent::new(u32::MAX, 7).describe(), "Extent[4294967295, +7]");
    assert_eq!(Extent::new(10, 1000000).describe(), "Extent[10, +1000000]");
}
