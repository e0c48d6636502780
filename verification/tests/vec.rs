use agdb::collections::vec::{MemoryVec, VecData, VecDataMemory, VecImpl};
use agdb::db::db_error::{DbError, DbErrorType};

fn out_of_bounds(message: &str) -> DbError {
    DbError::collections(DbErrorType::OutOfBounds, message)
}

fn hello_world() -> MemoryVec<String> {
    let mut vec = MemoryVec::<String>::new();
    vec.push(&"Hello".to_string()).unwrap();
    vec.push(&", ".to_string()).unwrap();
    vec.push(&"World".to_string()).unwrap();
    vec.push(&"!".to_string()).unwrap();
    vec
}

#[test]
fn vec_iter() {
    let vec = hello_world();
    assert_eq!(vec.iter(), vec!["Hello", ", ", "World", "!"]);
}

#[test]
fn vec_is_empty() {
    let mut vec = MemoryVec::<String>::new();
    assert!(vec.is_empty());
    vec.push(&"Hello, World!".to_string()).unwrap();
    assert!(!vec.is_empty());
}

#[test]
fn vec_len() {
    let mut vec = MemoryVec::<String>::new();
    assert_eq!(vec.len(), 0);
    vec.push(&"Hello".to_string()).unwrap();
    vec.push(&", ".to_string()).unwrap();
    vec.push(&"World".to_string()).unwrap();
    vec.push(&"!".to_string()).unwrap();
    assert_eq!(vec.len(), 4)
}

#[test]
fn vec_min_capacity() {
    let mut vec = MemoryVec::<String>::new();
    assert_eq!(vec.capacity(), 0);
    vec.push(&"Hello".to_string()).unwrap();
    vec.push(&", ".to_string()).unwrap();
    vec.push(&"World".to_string()).unwrap();
    vec.push(&"!".to_string()).unwrap();
    assert_eq!(vec.capacity(), 64);
}

#[test]
fn vec_push() {
    let vec = hello_world();
    let mut values = Vec::<String>::new();
    for index in 0..vec.len() {
        values.push(vec.value(index).unwrap());
    }
    assert_eq!(
        values,
        vec![
            "Hello".to_string(),
            ", ".to_string(),
            "World".to_string(),
            "!".to_string()
        ]
    );
}

#[test]
fn vec_remove() {
    let mut vec = hello_world();
    vec.remove(1).unwrap();
    assert_eq!(
        vec.iter(),
        vec!["Hello".to_string(), "World".to_string(), "!".to_string()]
    );
}

#[test]
fn vec_remove_at_end() {
    let mut vec = hello_world();
    vec.remove(2).unwrap();
    assert_eq!(
        vec.iter(),
        vec!["Hello".to_string(), ", ".to_string(), "!".to_string(),]
    );
}

#[test]
fn vec_remove_index_out_of_bounds() {
    let mut vec = MemoryVec::<String>::new();
    assert_eq!(vec.remove(0), Err(out_of_bounds("Index (0) out of bounds (0)")));
}

#[test]
fn vec_reserve_larger() {
    let mut vec = MemoryVec::<String>::new();
    assert_eq!(vec.capacity(), 0);
    vec.reserve(20).unwrap();
    assert_eq!(vec.capacity(), 20);
}

#[test]
fn vec_reserve_smaller() {
    let mut vec = MemoryVec::<String>::new();
    vec.reserve(20).unwrap();
    vec.reserve(10).unwrap();
    assert_eq!(vec.capacity(), 20);
}

#[test]
fn vec_resize_larger() {
    let mut vec = hello_world();
    vec.resize(6, &" ".to_string()).unwrap();
    assert_eq!(
        vec.iter(),
        vec![
            "Hello".to_string(),
            ", ".to_string(),
            "World".to_string(),
            "!".to_string(),
            " ".to_string(),
            " ".to_string(),
        ]
    );
}

#[test]
fn vec_resize_over_capacity() {
    let mut vec = hello_world();
    vec.resize(100, &" ".to_string()).unwrap();
    let mut expected = Vec::<String>::new();
    expected.resize(100, " ".to_string());
    expected[0] = "Hello".to_string();
    expected[1] = ", ".to_string();
    expected[2] = "World".to_string();
    expected[3] = "!".to_string();
    assert_eq!(vec.len(), 100);
    assert_eq!(vec.capacity(), 100);
    assert_eq!(vec.iter(), expected);
}

#[test]
fn vec_resize_same() {
    let mut vec = hello_world();
    vec.resize(4, &String::default()).unwrap();
    assert_eq!(
        vec.iter(),
        vec![
            "Hello".to_string(),
            ", ".to_string(),
            "World".to_string(),
            "!".to_string()
        ]
    );
}

#[test]
fn vec_resize_smaller() {
    let mut vec = hello_world();
    vec.resize(3, &String::default()).unwrap();
    assert_eq!(
        vec.iter(),
        vec!["Hello".to_string(), ", ".to_string(), "World".to_string()]
    );
}

#[test]
fn vec_replace() {
    let mut vec = hello_world();
    vec.replace(1, &" ".to_string()).unwrap();
    assert_eq!(vec.value(0), Ok("Hello".to_string()));
    assert_eq!(vec.value(1), Ok(" ".to_string()));
    assert_eq!(vec.value(2), Ok("World".to_string()));
    assert_eq!(vec.value(3), Ok("!".to_string()));
}

#[test]
fn vec_replace_out_of_bounds() {
    let mut vec = MemoryVec::<String>::new();
    assert_eq!(
        vec.replace(0, &"".to_string()),
        Err(out_of_bounds("Index (0) out of bounds (0)"))
    );
}

#[test]
fn vec_shrink_to_fit() {
    let mut vec = hello_world();
    assert_eq!(vec.capacity(), 64);
    vec.shrink_to_fit().unwrap();
    assert_eq!(vec.capacity(), 4);
    vec.shrink_to_fit().unwrap();
    assert_eq!(vec.capacity(), 4);
}

#[test]
fn vec_shrink_to_fit_empty() {
    let mut vec = MemoryVec::<String>::new();
    assert_eq!(vec.capacity(), 0);
    vec.shrink_to_fit().unwrap();
    assert_eq!(vec.capacity(), 0);
}

#[test]
fn vec_swap() {
    let mut vec = hello_world();
    vec.swap(0, 2).unwrap();
    assert_eq!(
        vec.iter(),
        vec![
            "World".to_string(),
            ", ".to_string(),
            "Hello".to_string(),
            "!".to_string()
        ]
    );
}

#[test]
fn vec_swap_self() {
    let mut vec = hello_world();
    vec.swap(1, 1).unwrap();
    assert_eq!(
        vec.iter(),
        vec![
            "Hello".to_string(),
            ", ".to_string(),
            "World".to_string(),
            "!".to_string()
        ]
    );
}

#[test]
fn vec_swap_invalid() {
    let mut vec = hello_world();
    assert_eq!(
        vec.swap(1, 10),
        Err(out_of_bounds("Index (10) out of bounds (4)"))
    );
    assert_eq!(
        vec.swap(10, 1),
        Err(out_of_bounds("Index (10) out of bounds (4)"))
    );
}

#[test]
fn vec_value() {
    let vec = hello_world();
    assert_eq!(vec.value(0), Ok("Hello".to_string()));
    assert_eq!(vec.value(1), Ok(", ".to_string()));
    assert_eq!(vec.value(2), Ok("World".to_string()));
    assert_eq!(vec.value(3), Ok("!".to_string()));
}

#[test]
fn vec_value_out_of_bounds() {
    let vec = MemoryVec::<String>::new();
    assert_eq!(vec.value(0), Err(out_of_bounds("Index (0) out of bounds (0)")));
}

#[test]
fn vec_growth_is_half_again() {
    let mut vec = MemoryVec::<u64>::new();
    for i in 0..64 {
        vec.push(&i).unwrap();
    }
    assert_eq!(vec.capacity(), 64);
    vec.push(&64).unwrap();
    assert_eq!(vec.capacity(), 96);
    for i in 65..96 {
        vec.push(&i).unwrap();
    }
    assert_eq!(vec.capacity(), 96);
    vec.push(&96).unwrap();
    assert_eq!(vec.capacity(), 144);
    assert_eq!(vec.len(), 97);
    assert_eq!(vec.value(96), Ok(96));
}

#[test]
fn vec_out_of_bounds_message_uses_decimal_numbers() {
    let mut vec = MemoryVec::<i64>::new();
    vec.resize(1234, &-7).unwrap();
    assert_eq!(
        vec.value(98765),
        Err(out_of_bounds("Index (98765) out of bounds (1234)"))
    );
    assert_eq!(vec.value(1233), Ok(-7));
}

#[test]
fn vec_swap_twice_restores() {
    let mut vec = hello_world();
    vec.swap(0, 3).unwrap();
    vec.swap(0, 3).unwrap();
    assert_eq!(vec.iter(), hello_world().iter());
}

#[test]
fn vec_from_data() {
    let mut data = VecDataMemory::<u64>::new();
    data.reallocate(2).unwrap();
    data.resize(2, &5).unwrap();
    assert_eq!(data.len(), 2);
    let vec = VecImpl::from_data(data);
    assert_eq!(vec.iter(), vec![5, 5]);
    assert_eq!(vec.capacity(), 2);
}
