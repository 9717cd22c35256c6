use divide_slice::Divide;

#[test]
fn divide_no_remainder() {
    let slice = ['a', 'b', 'c', 'd', 'e', 'f'];
    let mut iter = slice.divide(3);
    assert_eq!(iter.next(), Some(&['a', 'b'][..]));
    assert_eq!(iter.next(), Some(&['c', 'd'][..]));
    assert_eq!(iter.next(), Some(&['e', 'f'][..]));
    assert_eq!(iter.next(), None);
}

#[test]
fn divide_with_reminder() {
    let slice = ['a', 'b', 'c', 'd', 'e', 'f', 'g', 'h', 'i'];
    let mut iter = slice.divide(4);
    assert_eq!(iter.next(), Some(&['a', 'b', 'c'][..]));
    assert_eq!(iter.next(), Some(&['d', 'e'][..]));
    assert_eq!(iter.next(), Some(&['f', 'g'][..]));
    assert_eq!(iter.next(), Some(&['h', 'i'][..]));
    assert_eq!(iter.next(), None);
}

#[test]
fn divide_smaller_size() {
    let slice = ['a', 'b'];
    let mut iter = slice.divide(3);
    assert_eq!(iter.next(), Some(&['a'][..]));
    assert_eq!(iter.next(), Some(&['b'][..]));
    assert_eq!(iter.next(), Some(&[][..]));
    assert_eq!(iter.next(), None);
}

#[test]
fn divide_empty_slice() {
    let slice: [char; 0] = [];
    let mut iter = slice.divide(3);
    assert_eq!(iter.next(), Some(&[][..]));
    assert_eq!(iter.next(), Some(&[][..]));
    assert_eq!(iter.next(), Some(&[][..]));
    assert_eq!(iter.next(), None);
}

#[test]
fn divide_mut_no_remainder() {
    let mut slice = [1, 2, 3, 4, 5, 6];
    let mut each = slice.divide_mut(3);
    while let Some(e) = each.next() {
        e[0] += 1;
    }
    let mut iter = slice.divide_mut(3);
    assert_eq!(iter.next(), Some(&mut [2, 2][..]));
    assert_eq!(iter.next(), Some(&mut [4, 4][..]));
    assert_eq!(iter.next(), Some(&mut [6, 6][..]));
    assert_eq!(iter.next(), None);
}

#[test]
fn divide_mut_with_remainder() {
    let mut slice = [1, 2, 3, 4, 5];
    let mut each = slice.divide_mut(3);
    while let Some(e) = each.next() {
        e[0] += 1;
    }
    let mut iter = slice.divide_mut(3);
    assert_eq!(iter.next(), Some(&mut [2, 2][..]));
    assert_eq!(iter.next(), Some(&mut [4, 4][..]));
    assert_eq!(iter.next(), Some(&mut [6][..]));
    assert_eq!(iter.next(), None);
}

#[test]
fn divide_mut_smaller_size() {
    let mut slice = [1, 2];
    let mut each = slice.divide_mut(3);
    while let Some(e) = each.next() {
        if e.len() > 0 {
            e[0] += 1
        }
    }
    let mut iter = slice.divide_mut(3);
    assert_eq!(iter.next(), Some(&mut [2][..]));
    assert_eq!(iter.next(), Some(&mut [3][..]));
    assert_eq!(iter.next(), Some(&mut [][..]));
    assert_eq!(iter.next(), None);
}

#[test]
fn divide_mut_empty() {
    let mut slice: [char; 0] = [];
    let mut iter = slice.divide_mut(3);
    assert_eq!(iter.next(), Some(&mut [][..]));
    assert_eq!(iter.next(), Some(&mut [][..]));
    assert_eq!(iter.next(), Some(&mut [][..]));
    assert_eq!(iter.next(), None);
}
