use mapcomp::{btreemapc, btreesetc, hashmapc, hashsetc, vecc, GeneratorIterator};

#[test]
fn it_works() {
    let items: Vec<i32> = (1..10).collect();
    let _v = vecc(&items, |x: &i32| x % 2 == 0, |x: &i32| x * x);
    assert_eq!(_v, vec![4, 16, 36, 64]);
}

#[test]
fn vecc_even_squares() {
    let v = vec![3, 2, 6, 9, 5];
    let even_squares = vecc(&v, |x: &i32| x % 2 == 0, |x: &i32| x * x);
    assert_eq!(even_squares, vec![4, 36]);
}

#[test]
fn vecc_keeps_source_order() {
    let items = vec![4, 7, 2];
    let even_squares = vecc(&items, |x: &i32| x % 2 == 0, |x: &i32| x * x);
    assert_eq!(even_squares, vec![16, 4]);
}

#[test]
fn vecc_without_filter_maps_every_item() {
    let items = vec![1u64, 2, 3];
    let doubled = vecc(&items, |_x: &u64| true, |x: &u64| 2 * x);
    assert_eq!(doubled, vec![2, 4, 6]);
}

#[test]
fn vecc_empty_source() {
    let items: Vec<i32> = Vec::new();
    let out = vecc(&items, |_x: &i32| true, |x: &i32| *x);
    assert!(out.is_empty());
}

#[test]
fn vecc_nothing_accepted() {
    let items = vec![1, 3, 5];
    let out = vecc(&items, |x: &i32| x % 2 == 0, |x: &i32| *x);
    assert!(out.is_empty());
}

#[test]
fn vecc_nested_clauses() {
    let grid = vec![vec![-2, 5], vec![3, -7, 6], vec![4, 2]];
    let rows = vecc(&grid, |row: &Vec<i32>| row.len() < 3, |row: &Vec<i32>| vecc(row, |x: &i32| *x > 0, |x: &i32| *x));
    let v: Vec<i32> = rows.into_iter().flatten().collect();
    assert_eq!(v, vec![5, 4, 2]);
}

#[test]
fn generator_powers_of_two() {
    let numbers = vec![8u32, 3, 5, 7];
    let mut powers_of_two = GeneratorIterator::new(numbers, |_x: &u32| true, |x: &u32| 1u32 << x);
    assert_eq!(Some(256), powers_of_two.next());
    assert_eq!(Some(8), powers_of_two.next());
    assert_eq!(Some(32), powers_of_two.next());
    assert_eq!(Some(128), powers_of_two.next());
    assert_eq!(None, powers_of_two.next());
}

#[test]
fn generator_odd_squares() {
    let numbers: Vec<u64> = (1..10).collect();
    let mut odd_squares = GeneratorIterator::new(numbers, |x: &u64| x % 2 == 1, |x: &u64| x * x);
    assert_eq!(Some(1), odd_squares.next());
    assert_eq!(Some(9), odd_squares.next());
    assert_eq!(Some(25), odd_squares.next());
    assert_eq!(Some(49), odd_squares.next());
    assert_eq!(Some(81), odd_squares.next());
    assert_eq!(None, odd_squares.next());
}

#[test]
fn generator_stays_exhausted() {
    let mut g = GeneratorIterator::new(vec![2u8, 4], |x: &u8| *x > 3, |x: &u8| *x);
    assert_eq!(Some(4), g.next());
    assert_eq!(None, g.next());
    assert_eq!(None, g.next());
}

#[test]
fn generator_empty_source() {
    let mut g = GeneratorIterator::new(Vec::<i32>::new(), |_x: &i32| true, |x: &i32| *x);
    assert_eq!(None, g.next());
}

#[test]
fn generator_is_lazy() {
    // The expression panics on zero; a generator that is never resumed past
    // the first item must not evaluate it there.
    let mut g = GeneratorIterator::new(vec![5u32, 0], |_x: &u32| true, |x: &u32| 10 / x);
    assert_eq!(Some(2), g.next());
}

#[test]
fn hashsetc_members() {
    let matrix = [[3, 8, 7], [9, 5, 3], [4, 5, 6]];
    let flat: Vec<i32> = matrix.iter().flatten().copied().collect();
    let members = hashsetc(&flat, |_n: &i32| true, |n: &i32| *n);
    for n in &[3, 8, 7, 9, 5, 4, 6] {
        assert!(members.contains(n));
    }
    assert_eq!(members.len(), 7);
}

#[test]
fn hashsetc_filters() {
    let items = vec![1, 2, 3, 4, 5, 6];
    let set = hashsetc(&items, |x: &i32| x % 3 == 0, |x: &i32| x * 10);
    assert_eq!(set.len(), 2);
    assert!(set.contains(&30));
    assert!(set.contains(&60));
    assert!(!set.contains(&3));
}

#[test]
fn hashmapc_halves() {
    let numbers = vec![6, 4, 18];
    let halves = hashmapc(&numbers, |_x: &i32| true, |x: &i32| (x.to_string(), x / 2));
    for &(k, v) in &[("6", 3), ("4", 2), ("18", 9)] {
        assert_eq!(halves[k], v);
    }
    assert_eq!(halves.len(), 3);
}

#[test]
fn hashmapc_later_key_overrides() {
    let items = vec![(1, 'a'), (2, 'b'), (1, 'c')];
    let map = hashmapc(&items, |_p: &(i32, char)| true, |p: &(i32, char)| *p);
    assert_eq!(map.len(), 2);
    assert_eq!(map[&1], 'c');
    assert_eq!(map[&2], 'b');
}

#[test]
fn btreesetc_pairs() {
    let mut grid: Vec<(i32, i32)> = Vec::new();
    for i in 4..7 {
        for j in 10..12 {
            grid.push((i, j));
        }
    }
    let pairs = btreesetc(&grid, |_p: &(i32, i32)| true, |p: &(i32, i32)| *p);
    for i in 4..7 {
        for j in 10..12 {
            assert!(pairs.contains(&(i, j)));
        }
    }
    assert_eq!(pairs.len(), 6);
}

#[test]
fn btreesetc_removes_duplicates() {
    let items = vec![3, 1, 3, 2, 1];
    let set = btreesetc(&items, |x: &i32| *x != 2, |x: &i32| *x);
    let got: Vec<i32> = set.into_iter().collect();
    assert_eq!(got, vec![1, 3]);
}

#[test]
fn btreemapc_index_map() {
    let array = vec![5, 3, 9, 6];
    let indexed: Vec<(usize, i32)> = array.iter().copied().enumerate().collect();
    let index_map = btreemapc(&indexed, |_p: &(usize, i32)| true, |p: &(usize, i32)| (p.1, p.0));
    for (i, x) in array.iter().enumerate() {
        assert_eq!(index_map[x], i);
    }
}

#[test]
fn btreemapc_filter_and_override() {
    let items = vec![10, 11, 20, 21, 30];
    let by_tens = btreemapc(&items, |x: &i32| x % 2 == 0 || *x == 21, |x: &i32| (x / 10, *x));
    assert_eq!(by_tens.len(), 3);
    assert_eq!(by_tens[&1], 10);
    assert_eq!(by_tens[&2], 21);
    assert_eq!(by_tens[&3], 30);
}
