use link::store::Data;

#[test]
fn test_data_basic_operations() {
    let mut data = Data::new();

    let key = "test_key";
    let value = b"test value".to_vec();
    data.set(key, value.clone()).unwrap();

    let result = data.get(key).unwrap();
    assert_eq!(result, Some(value));

    let result = data.get("non_existent").unwrap();
    assert_eq!(result, None);

    data.remove(key).unwrap();
    let result = data.get(key).unwrap();
    assert_eq!(result, None);
}

#[test]
fn test_data_clear() {
    let mut data = Data::new();

    data.set("key1", b"value1".to_vec()).unwrap();
    data.set("key2", b"value2".to_vec()).unwrap();
    data.set("key3", b"value3".to_vec()).unwrap();

    assert!(data.get("key1").unwrap().is_some());
    assert!(data.get("key2").unwrap().is_some());
    assert!(data.get("key3").unwrap().is_some());

    data.clear().unwrap();

    assert!(data.get("key1").unwrap().is_none());
    assert!(data.get("key2").unwrap().is_none());
    assert!(data.get("key3").unwrap().is_none());
}

#[test]
fn test_data_overwrite() {
    let mut data = Data::new();
    let key = "test_key";

    data.set(key, b"initial value".to_vec()).unwrap();

    let new_value = b"new value".to_vec();
    data.set(key, new_value.clone()).unwrap();

    let result = data.get(key).unwrap();
    assert_eq!(result, Some(new_value));
}

#[test]
fn test_data_concurrent_access() {
    let mut data = Data::new();

    for i in 0..100 {
        let key = format!("key{}", i);
        let value = format!("value{}", i).into_bytes();
        data.set(&key, value).unwrap();
    }
    for i in 100..200 {
        let key = format!("key{}", i);
        let value = format!("value{}", i).into_bytes();
        data.set(&key, value).unwrap();
    }

    for i in 0..200 {
        let key = format!("key{}", i);
        let expected = format!("value{}", i).into_bytes();
        let result = data.get(&key).unwrap();
        assert_eq!(result, Some(expected));
    }
}

#[test]
fn test_data_empty_values() {
    let mut data = Data::new();

    data.set("empty", vec![]).unwrap();
    let result = data.get("empty").unwrap();
    assert_eq!(result, Some(vec![]));

    data.set("", b"value".to_vec()).unwrap();
    let result = data.get("").unwrap();
    assert_eq!(result, Some(b"value".to_vec()));
}

#[test]
fn test_data_remove_leaves_the_others() {
    let mut data = Data::new();
    data.set("a", vec![1]).unwrap();
    data.set("b", vec![2]).unwrap();
    data.set("c", vec![3]).unwrap();
    data.remove("b").unwrap();
    data.remove("missing").unwrap();
    assert_eq!(data.get("a").unwrap(), Some(vec![1]));
    assert_eq!(data.get("b").unwrap(), None);
    assert_eq!(data.get("c").unwrap(), Some(vec![3]));
    data.set("b", vec![4]).unwrap();
    assert_eq!(data.get("b").unwrap(), Some(vec![4]));
    // Names that begin alike are different names.
    data.set("ab", vec![5]).unwrap();
    assert_eq!(data.get("a").unwrap(), Some(vec![1]));
    assert_eq!(data.get("ab").unwrap(), Some(vec![5]));
}
