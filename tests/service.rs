use product_service::error::ServiceError;
use product_service::quantity::{Quantity, Unit};
use product_service::service::ProductService;
use product_service::store::RecordStore;

fn empty_catalog() -> ProductService {
    ProductService::init(RecordStore::new(), RecordStore::new()).unwrap()
}

#[test]
fn end_to_end_scenario() {
    let mut c = empty_catalog();
    let p = c
        .create_product("Soil".to_string(), "Potting soil".to_string(), "g", 7)
        .unwrap();
    assert_eq!(p.product_id, 1);
    assert_eq!(p.unit, Unit::Gram);
    assert!(p.skus.is_empty());
    let s = c.create_sku(1, "5kg bag".to_string(), "5000", 7).unwrap();
    assert_eq!(s.sku, 1);
    assert_eq!(s.display_packaging, "5000g");
    assert_eq!(s.display_name, "Soil, 5kg bag, 5000g");
    assert_eq!(c.get_product(1).unwrap().skus, vec![1]);
    c.update_product(1, "Premium Soil".to_string(), "Potting soil".to_string(), "g")
        .unwrap();
    assert_eq!(c.get_sku(1).unwrap().display_name, "Premium Soil, 5kg bag, 5000g");
}

#[test]
fn cascade_renames_every_sku_of_the_product() {
    let mut c = empty_catalog();
    c.create_product("A".to_string(), String::new(), "piece", 1).unwrap();
    c.create_product("Other".to_string(), String::new(), "ml", 1).unwrap();
    c.create_sku(1, "small".to_string(), "1", 1).unwrap();
    c.create_sku(1, "big".to_string(), "2x6", 1).unwrap();
    c.create_sku(2, "can".to_string(), "330", 1).unwrap();
    c.update_product(1, "B".to_string(), String::new(), "mm").unwrap();
    for id in [1u32, 2] {
        let s = c.get_sku(id).unwrap();
        assert!(s.display_name.contains('B'));
        assert!(!s.display_name.contains('A'));
        assert_eq!(s.parent_name, "B");
        assert_eq!(s.unit, Unit::Millimeter);
    }
    assert_eq!(c.get_sku(2).unwrap().display_name, "B, big, 2x6mm");
    assert_eq!(c.get_sku(3).unwrap().display_name, "Other, can, 330ml");
}

#[test]
fn divisibility_rule() {
    let mut c = empty_catalog();
    c.create_product("Seeds".to_string(), String::new(), "db", 1).unwrap();
    c.create_sku(1, "loose".to_string(), "10", 1).unwrap();
    c.create_sku(1, "box".to_string(), "3x5", 1).unwrap();
    assert!(matches!(c.update_sku_divide(2, true), Err(ServiceError::BadRequest(_))));
    assert!(!c.get_sku(2).unwrap().can_divide);
    assert!(c.update_sku_divide(1, true).unwrap().can_divide);
    assert!(!c.update_sku_divide(1, false).unwrap().can_divide);
    assert!(!c.update_sku_divide(2, false).unwrap().can_divide);
    assert!(matches!(c.update_sku_divide(9, false), Err(ServiceError::NotFound(_))));
}

#[test]
fn sku_of_missing_product_is_a_bad_request() {
    let mut c = empty_catalog();
    assert!(matches!(
        c.create_sku(1, "x".to_string(), "1", 1),
        Err(ServiceError::BadRequest(_))
    ));
    c.create_product("Peat".to_string(), String::new(), "g", 1).unwrap();
    assert!(matches!(
        c.create_sku(1, "x".to_string(), "1x", 1),
        Err(ServiceError::BadRequest(_))
    ));
    assert!(c.get_sku_all().unwrap().is_empty());
}

#[test]
fn bad_unit_is_refused() {
    let mut c = empty_catalog();
    assert!(matches!(
        c.create_product("Peat".to_string(), String::new(), "kg", 1),
        Err(ServiceError::BadRequest(_))
    ));
    assert!(c.get_product_all().unwrap().is_empty());
    c.create_product("Peat".to_string(), String::new(), "g", 1).unwrap();
    assert!(matches!(
        c.update_product(1, "Q".to_string(), String::new(), "kg"),
        Err(ServiceError::BadRequest(_))
    ));
    assert_eq!(c.get_product(1).unwrap().name, "Peat");
    assert!(matches!(
        c.update_product(5, "Q".to_string(), String::new(), "g"),
        Err(ServiceError::NotFound(_))
    ));
}

#[test]
fn lookups_and_bulk() {
    let mut c = empty_catalog();
    for name in ["Rose", "Tulip", "Lily"] {
        c.create_product(name.to_string(), String::new(), "db", 1).unwrap();
    }
    assert_eq!(c.get_product_all().unwrap(), vec![1, 2, 3]);
    assert!(matches!(c.get_product(4), Err(ServiceError::NotFound(_))));
    let bulk = c.get_product_bulk(&vec![3, 9, 1]).unwrap();
    let ids: Vec<u32> = bulk.iter().map(|p| p.product_id).collect();
    assert_eq!(ids, vec![1, 3]);
    c.create_sku(2, "bunch".to_string(), "10", 1).unwrap();
    c.create_sku(3, "pot".to_string(), "1", 1).unwrap();
    assert_eq!(c.get_sku_all().unwrap(), vec![1, 2]);
    let skus = c.get_sku_bulk(&vec![2, 7]).unwrap();
    assert_eq!(skus.len(), 1);
    assert_eq!(skus[0].display_name, "Lily, pot, 1db");
    assert!(matches!(c.get_sku(3), Err(ServiceError::NotFound(_))));
}

#[test]
fn find_ignores_case() {
    let mut c = empty_catalog();
    for name in ["Garden Soil", "Seed mix", "SOIL booster"] {
        c.create_product(name.to_string(), String::new(), "g", 1).unwrap();
    }
    assert_eq!(c.find_product("soil").unwrap(), vec![1, 3]);
    assert_eq!(c.find_product("SOIL").unwrap(), vec![1, 3]);
    assert!(c.find_product("clay").unwrap().is_empty());
    c.create_sku(1, "Small Bag".to_string(), "500", 1).unwrap();
    c.create_sku(2, "pack".to_string(), "2x10", 1).unwrap();
    assert_eq!(c.find_sku("small bag").unwrap(), vec![1]);
    assert_eq!(c.find_sku("2X10").unwrap(), vec![2]);
}

#[test]
fn update_sku_recomputes_display() {
    let mut c = empty_catalog();
    c.create_product("Milk".to_string(), String::new(), "ml", 1).unwrap();
    c.create_sku(1, "bottle".to_string(), "1000", 1).unwrap();
    c.update_sku_divide(1, true).unwrap();
    let s = c.update_sku(1, "crate".to_string(), "6x1000").unwrap();
    assert_eq!(s.quantity, Quantity::Complex(6, 1000));
    assert_eq!(s.display_packaging, "6x1000ml");
    assert_eq!(s.display_name, "Milk, crate, 6x1000ml");
    assert!(!s.can_divide);
    assert!(matches!(
        c.update_sku(1, "crate".to_string(), "6x"),
        Err(ServiceError::BadRequest(_))
    ));
    assert!(matches!(
        c.update_sku(4, "crate".to_string(), "6"),
        Err(ServiceError::NotFound(_))
    ));
}

#[test]
fn catalog_round_trip() {
    let mut c = empty_catalog();
    c.create_product("Soil".to_string(), "d".to_string(), "g", 7).unwrap();
    c.create_sku(1, "bag".to_string(), "5000", 7).unwrap();
    c.create_sku(1, "pallet".to_string(), "40x5000", 7).unwrap();
    let (products, skus) = c.into_parts();
    let products = RecordStore::load(products.into_records()).unwrap();
    let skus = RecordStore::load(skus.into_records()).unwrap();
    let c = ProductService::init(products, skus).unwrap();
    assert_eq!(c.get_sku_all().unwrap(), vec![1, 2]);
    assert_eq!(c.get_product(1).unwrap().skus, vec![1, 2]);
    assert_eq!(c.get_sku(2).unwrap().display_name, "Soil, pallet, 40x5000g");
}

#[test]
fn init_refuses_stale_skus() {
    let mut c = empty_catalog();
    c.create_product("Soil".to_string(), String::new(), "g", 7).unwrap();
    c.create_sku(1, "bag".to_string(), "5000", 7).unwrap();
    let (products, skus) = c.into_parts();
    let mut records = skus.into_records();
    records[0].display_name = "stale".to_string();
    let skus = RecordStore::load(records).unwrap();
    assert!(matches!(
        ProductService::init(products, skus),
        Err(ServiceError::InternalError(_))
    ));
}

#[test]
fn next_ids_skip_to_one_above_the_largest() {
    let mut c = empty_catalog();
    assert_eq!(c.next_product_id().unwrap(), 1);
    assert_eq!(c.next_sku().unwrap(), 1);
    c.create_product("A".to_string(), String::new(), "g", 1).unwrap();
    c.create_product("B".to_string(), String::new(), "g", 1).unwrap();
    assert_eq!(c.next_product_id().unwrap(), 3);
}
