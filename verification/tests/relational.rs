use database::relational::id::{BrandId, CategoryId, ProductId};
use database::relational::types::{Brand, Category, CompactProduct, Date, Product};
use database::relational::{
    archive_file_name, Free, FileIntention, FreeList, RecordPlacement, TableInfo, TableVer,
};
use database::clock::ClockReading;
use database::storage::storage_save::present_slots;

#[test]
fn it_works() {}

fn write_of(w: &FileIntention) -> (bool, usize, usize, Vec<u8>) {
    match w {
        FileIntention::Update(e) => (false, e.index, e.offset, e.data.clone()),
        FileIntention::Insert(e) => (true, e.index, e.offset, e.data.clone()),
    }
}

#[test]
fn table_info_takes_four_bytes() {
    assert_eq!(TableInfo::buffer_size(), 4);
}

#[test]
fn new_free_list_has_one_empty_run() {
    let list = FreeList::new("t_freelist".to_string(), None, None);
    assert_eq!(list.get_size(), 0);
    assert_eq!(list.get_vec().clone(), vec![Free { start: 0, end: 0 }]);
    assert_eq!(list.get_offset(), 4);
    assert_eq!(list.get_name(), "t_freelist");
}

#[test]
fn free_list_keeps_what_was_stored() {
    let list = FreeList::new(
        "t".to_string(),
        Some(70000),
        Some(vec![Free { start: 1, end: 2 }]),
    );
    assert_eq!(list.get_size(), 70000u32 as u16);
    assert_eq!(list.get_vec().clone(), vec![Free { start: 1, end: 2 }]);
}

#[test]
fn push_on_one_run_grows_it() {
    let mut list = FreeList::new("t".to_string(), None, None);
    let (slot, writes) = list.push();
    assert_eq!(slot, None);
    assert_eq!(list.get_vec().clone(), vec![Free { start: 0, end: 1 }]);
    assert_eq!(list.get_size(), 1);
    let ws: Vec<_> = writes.iter().map(write_of).collect();
    assert_eq!(ws, vec![(false, 0, 4, vec![0, 0, 1, 0]), (false, 0, 0, vec![1, 0, 0, 0])]);
}

#[test]
fn push_fills_the_gap_before_the_last_run() {
    let mut list = FreeList::new(
        "t".to_string(),
        Some(8),
        Some(vec![Free { start: 0, end: 3 }, Free { start: 6, end: 9 }]),
    );
    let (slot, writes) = list.push();
    assert_eq!(slot, Some(5));
    assert_eq!(list.get_vec().clone(), vec![Free { start: 0, end: 3 }, Free { start: 5, end: 9 }]);
    let ws: Vec<_> = writes.iter().map(write_of).collect();
    assert_eq!(ws, vec![(false, 1, 4, vec![5, 0, 9, 0]), (false, 0, 0, vec![9, 0, 0, 0])]);
    let (slot, writes) = list.push();
    assert_eq!(slot, Some(4));
    assert_eq!(list.get_vec().clone(), vec![Free { start: 0, end: 9 }]);
    assert_eq!(list.get_size(), 10);
    let ws: Vec<_> = writes.iter().map(write_of).collect();
    assert_eq!(ws, vec![(false, 0, 4, vec![0, 0, 9, 0]), (false, 0, 0, vec![10, 0, 0, 0])]);
}

#[test]
fn remove_inside_a_run_splits_it() {
    let mut list = FreeList::new("t".to_string(), Some(10), Some(vec![Free { start: 0, end: 10 }]));
    assert!(list.would_free(5));
    let writes = list.remove(5);
    assert_eq!(list.get_vec().clone(), vec![Free { start: 0, end: 4 }, Free { start: 6, end: 10 }]);
    assert_eq!(list.get_size(), 9);
    let ws: Vec<_> = writes.iter().map(write_of).collect();
    assert_eq!(
        ws,
        vec![
            (false, 0, 4, vec![0, 0, 4, 0]),
            (true, 0, 4, vec![0, 0, 4, 0]),
            (false, 0, 0, vec![9, 0, 0, 0])
        ]
    );
}

#[test]
fn remove_at_the_start_of_a_run_shortens_it() {
    let mut list = FreeList::new("t".to_string(), Some(10), Some(vec![Free { start: 0, end: 10 }]));
    let writes = list.remove(0);
    assert_eq!(list.get_vec().clone(), vec![Free { start: 1, end: 10 }]);
    assert_eq!(list.get_size(), 9);
    assert_eq!(writes.len(), 2);
}

#[test]
fn remove_of_a_free_slot_changes_nothing() {
    let runs = vec![Free { start: 0, end: 4 }, Free { start: 6, end: 10 }];
    let mut list = FreeList::new("t".to_string(), Some(9), Some(runs.clone()));
    assert!(!list.would_free(5));
    let writes = list.remove(5);
    assert!(writes.is_empty());
    assert_eq!(list.get_vec().clone(), runs);
    assert_eq!(list.get_size(), 9);
    let writes = list.remove(4);
    assert!(writes.is_empty());
    assert_eq!(list.get_vec().clone(), runs);
    let writes = list.remove(40);
    assert!(writes.is_empty());
}

#[test]
fn remove_then_push_claims_the_slot_again() {
    let mut list = FreeList::new("t".to_string(), Some(10), Some(vec![Free { start: 0, end: 10 }]));
    list.remove(5);
    let (slot, _) = list.push();
    assert_eq!(slot, Some(5));
    assert_eq!(list.get_vec().clone(), vec![Free { start: 0, end: 10 }]);
    assert_eq!(list.get_size(), 10);
}

#[test]
fn can_push_checks_the_limits() {
    let list = FreeList::new("t".to_string(), None, Some(vec![]));
    assert!(!list.can_push());
    let list = FreeList::new("t".to_string(), Some(u32::MAX), None);
    assert!(!list.can_push());
    let list = FreeList::new("t".to_string(), None, Some(vec![Free { start: 0, end: 65535 }]));
    assert!(!list.can_push());
    let list = FreeList::new("t".to_string(), None, None);
    assert!(list.can_push());
}

#[test]
fn archive_names_are_year_then_month() {
    assert_eq!(archive_file_name(2024, 0), "20240");
    assert_eq!(archive_file_name(2023, 11), "202311");
    assert_eq!(archive_file_name(-44, 2), "-442");
}

#[test]
fn table_pushes_and_removes_records() {
    let free = FreeList::new(TableVer::<u32>::free_list_name("products").to_string(), None, None);
    assert_eq!(free.get_name(), "products_freelist");
    let mut table: TableVer<u32> = TableVer::new("products", free, None);
    assert_eq!(table.get_filename(), "products");
    assert!(table.can_push());
    let (i, place, _) = table.push(11);
    assert_eq!((i, place), (0, RecordPlacement::Append));
    let (i, place, _) = table.push(22);
    assert_eq!((i, place), (1, RecordPlacement::Append));
    assert_eq!(table.len(), 2);
    assert!(!table.can_remove(2));
    assert!(table.can_remove(0));
    let removed = table.remove(0);
    let (value, writes, archive) = removed.unwrap();
    assert_eq!(value, 11);
    assert_eq!(writes.len(), 2);
    assert!(!archive.is_empty());
    assert_eq!(*table.get(0), None);
    assert_eq!(*table.get(1), Some(22));
    assert_eq!(table.get_free().get_vec().clone(), vec![Free { start: 1, end: 2 }]);
    assert!(table.remove(0).is_none());
    assert!(table.remove(7).is_none());
    table.update(1, 99);
    assert_eq!(*table.get(1), Some(22));
}

#[test]
fn table_reuses_a_slot_the_free_list_hands_out() {
    let free = FreeList::new(
        "t".to_string(),
        Some(2),
        Some(vec![Free { start: 0, end: 0 }, Free { start: 2, end: 3 }]),
    );
    let mut table: TableVer<u32> = TableVer::new("t", free, Some(vec![Some(1), None, Some(3)]));
    assert!(!table.can_push());
}

#[test]
fn present_slots_follow_the_first_run() {
    assert_eq!(present_slots(&vec![Free { start: 0, end: 0 }], 3), vec![true, true, true]);
    assert_eq!(present_slots(&vec![Free { start: 2, end: 5 }], 2), vec![false, false]);
    assert_eq!(present_slots(&vec![Free { start: 0, end: 1 }], 0), Vec::<bool>::new());
}

#[test]
fn ids_and_records_default_to_zero() {
    assert_eq!(ProductId::default(), ProductId { ver: 0, id: 0 });
    assert_eq!(BrandId::default(), BrandId { ver: 0, id: 0 });
    assert_eq!(CategoryId::default(), CategoryId { ver: 0, id: 0 });
    let p = Product::default();
    assert_eq!(p.name, [0u8; 25]);
    let c: CompactProduct = CompactProduct::from(p);
    assert_eq!(c.category_id, CategoryId { ver: 0, id: 0 });
    assert_eq!(c.brand_id, BrandId { ver: 0, id: 0 });
    assert_eq!(Category::new("food".to_string()).category_name, "food");
    assert_eq!(Brand::new("acme".to_string()).brand_name, "acme");
    assert_eq!(Category::default().category_name, "");
    assert_eq!(Brand::default().brand_name, "");
}

#[test]
fn dates_cut_the_clock_fields() {
    let c = ClockReading { year: 2024, month0: 4, day: 17, hour: 9, minute: 30, second: 5 };
    let d = Date::from_reading(c);
    assert_eq!(d, Date { year: 2024, day: 17, hour: 9, minute: 30, second: 5 });
    let c = ClockReading { year: 70000, month0: 0, day: 1, hour: 0, minute: 0, second: 0 };
    assert_eq!(Date::from_reading(c).year, 70000u32 as u16);
    let now = Date::new();
    assert!(now.hour < 24);
}

#[test]
fn removing_past_the_end_of_the_table_changes_nothing() {
    let free = FreeList::new("t".to_string(), Some(0), Some(vec![Free { start: 0, end: 10 }]));
    assert!(free.would_free(5));
    let mut table: TableVer<u32> = TableVer::new("t", free, None);
    assert!(table.can_remove(5));
    assert!(!table.can_remove(0));
    assert!(table.remove(5).is_none());
    assert_eq!(table.get_free().get_vec().clone(), vec![Free { start: 0, end: 10 }]);
    assert_eq!(table.get_free().get_size(), 0);
}
