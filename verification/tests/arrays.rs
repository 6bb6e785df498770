use array_helpers::{new, Array, ArrayTranspose, ArrayUnzip};

#[test]
fn map_adds_one() {
    assert_eq!(Array::map([1, 2, 3, 4], |x| x + 1), [2, 3, 4, 5]);
}

#[test]
fn map_squares() {
    assert_eq!(Array::map([1, 2, 3, 4], |x| x * x), [1, 4, 9, 16]);
}

#[test]
fn map_changes_the_element_type_and_moves_the_elements() {
    let words = ["one".to_string(), "three".to_string(), "seventeen".to_string()];
    let lengths: [(String, usize); 3] = Array::map(words, |w| {
        let n = w.len();
        (w, n)
    });
    assert_eq!(
        lengths,
        [("one".to_string(), 3), ("three".to_string(), 5), ("seventeen".to_string(), 9)]
    );
}

#[test]
fn map_visits_the_elements_in_order() {
    let mut seen = Vec::new();
    let out = Array::map(['a', 'b', 'c'], |c| {
        seen.push(c);
        c as u32
    });
    assert_eq!(seen, vec!['a', 'b', 'c']);
    assert_eq!(out, [97, 98, 99]);
}

#[test]
fn map_of_the_empty_array() {
    let empty: [u8; 0] = [];
    let out: [u16; 0] = Array::map(empty, |x| x as u16);
    assert_eq!(out.len(), 0);
}

#[test]
fn zip_pairs_by_index() {
    let arr1 = [1, 2, 3, 4];
    let arr2 = ['a', 'b', 'c', 'd'];
    assert_eq!(Array::zip(arr1, arr2), [(1, 'a'), (2, 'b'), (3, 'c'), (4, 'd')]);
}

#[test]
fn zip_of_empty_arrays() {
    let a: [u8; 0] = [];
    let b: [String; 0] = [];
    assert_eq!(Array::zip(a, b).len(), 0);
}

#[test]
fn unzip_splits_by_component() {
    let arr = [(1, 'a'), (2, 'b'), (3, 'c'), (4, 'd')];
    assert_eq!(ArrayUnzip::unzip(arr), ([1, 2, 3, 4], ['a', 'b', 'c', 'd']));
}

#[test]
fn unzip_after_zip_gives_both_arrays_back() {
    let a = [vec![1], vec![], vec![3, 3]];
    let b = ["x".to_string(), "y".to_string(), "z".to_string()];
    let (a2, b2) = ArrayUnzip::unzip(Array::zip(a.clone(), b.clone()));
    assert_eq!(a2, a);
    assert_eq!(b2, b);
}

#[test]
fn zip_after_unzip_gives_the_pairs_back() {
    let pairs = [(1u8, true), (2, false), (3, true)];
    let (a, b) = ArrayUnzip::unzip(pairs);
    assert_eq!(Array::zip(a, b), pairs);
}

#[test]
fn transpose_two_rows_of_three() {
    let arr = [[1, 2, 3], [4, 5, 6]];
    assert_eq!(ArrayTranspose::transpose(arr), [[1, 4], [2, 5], [3, 6]]);
}

#[test]
fn transpose_twice_gives_the_array_back() {
    let arr: [[String; 4]; 3] = new(|i| new(|j| format!("{}-{}", i, j)));
    let once: [[String; 3]; 4] = ArrayTranspose::transpose(arr.clone());
    assert_eq!(once[3][1], "1-3");
    let twice: [[String; 4]; 3] = ArrayTranspose::transpose(once);
    assert_eq!(twice, arr);
}

#[test]
fn transpose_a_single_row_and_a_single_column() {
    assert_eq!(ArrayTranspose::transpose([[7, 8, 9]]), [[7], [8], [9]]);
    assert_eq!(ArrayTranspose::transpose([[7], [8], [9]]), [[7, 8, 9]]);
}

#[test]
fn transpose_with_no_rows_or_no_columns() {
    let no_rows: [[u8; 3]; 0] = [];
    let t: [[u8; 0]; 3] = ArrayTranspose::transpose(no_rows);
    assert_eq!(t, [[], [], []]);
    let back: [[u8; 3]; 0] = ArrayTranspose::transpose(t);
    assert_eq!(back.len(), 0);
}

#[test]
fn new_transpose_map_unzip_chain() {
    let arr: [[usize; 3]; 2] = new(|i| new(|j| 3 * i + j));
    assert_eq!(arr, [[0, 1, 2], [3, 4, 5]]);
    let arr = ArrayTranspose::transpose(arr);
    assert_eq!(arr, [[0, 3], [1, 4], [2, 5]]);
    let arr = Array::map(arr, |[a, b]| (a, b));
    assert_eq!(arr, [(0, 3), (1, 4), (2, 5)]);
    let (arr1, arr2) = ArrayUnzip::unzip(arr);
    assert_eq!(arr1, [0, 1, 2]);
    assert_eq!(arr2, [3, 4, 5]);
}

#[test]
fn into_iter_yields_the_elements_by_value() {
    let arr: [usize; 4] = [1, 2, 3, 4];
    let mut iter = Array::into_iter(arr);
    assert_eq!(Some(1), iter.next());
    assert_eq!(Some(2), iter.next());
    assert_eq!(Some(3), iter.next());
    assert_eq!(Some(4), iter.next());
    assert_eq!(None, iter.next());
}
