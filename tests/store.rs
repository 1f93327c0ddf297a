use product_service::error::ServiceError;
use product_service::product::Product;
use product_service::quantity::Unit;
use product_service::store::RecordStore;

fn product(id: u32) -> Product {
    Product::new(id, format!("Item {}", id), String::new(), Unit::Piece, 1)
}

#[test]
fn next_id_follows_the_largest() {
    let mut store = RecordStore::new();
    for id in [1u32, 3, 4] {
        store.insert(product(id)).unwrap();
    }
    assert_eq!(store.next_id().unwrap(), 5);
}

#[test]
fn next_id_of_empty_store_is_one() {
    let store: RecordStore<Product> = RecordStore::new();
    assert_eq!(store.next_id().unwrap(), 1);
}

#[test]
fn next_id_reports_exhaustion() {
    let mut store = RecordStore::new();
    store.insert(product(u32::MAX)).unwrap();
    assert!(matches!(store.next_id(), Err(ServiceError::InternalError(_))));
}

#[test]
fn duplicate_insert_is_a_conflict() {
    let mut store = RecordStore::new();
    store.insert(product(2)).unwrap();
    assert!(matches!(store.insert(product(2)), Err(ServiceError::AlreadyExists(_))));
    assert_eq!(store.len(), 1);
}

#[test]
fn find_reports_missing_ids() {
    let mut store = RecordStore::new();
    store.insert(product(2)).unwrap();
    assert_eq!(store.find_id(2).unwrap().name, "Item 2");
    assert!(matches!(store.find_id(9), Err(ServiceError::NotFound(_))));
}

#[test]
fn load_refuses_repeated_ids() {
    let r = RecordStore::load(vec![product(1), product(2), product(1)]);
    assert!(matches!(r, Err(ServiceError::InternalError(_))));
}

#[test]
fn records_round_trip_in_order() {
    let mut store = RecordStore::new();
    for id in [4u32, 1, 3] {
        store.insert(product(id)).unwrap();
    }
    let reloaded = RecordStore::load(store.into_records()).unwrap();
    assert_eq!(reloaded.ids(), vec![4, 1, 3]);
    assert_eq!(reloaded.get(0).name, "Item 4");
}

#[test]
fn error_messages_are_kept() {
    assert_eq!(ServiceError::not_found("gone").message(), "gone");
    assert!(matches!(ServiceError::internal_error("x"), ServiceError::InternalError(_)));
    assert!(matches!(ServiceError::already_exist("x"), ServiceError::AlreadyExists(_)));
    assert!(matches!(ServiceError::bad_request("x"), ServiceError::BadRequest(_)));
}
