use nar20_1::map2d::{crop, map2dDrawBox, map2dDrawCircle, readAt, writeAt, Map2d};

fn map(w: i32, h: i32) -> Map2d<i32> {
    Map2d { arr: vec![0; (w * h) as usize], w: w, h: h }
}

fn rows(m: &Map2d<i32>) -> Vec<Vec<i32>> {
    (0..m.h).map(|y| (0..m.w).map(|x| readAt(m, y, x)).collect()).collect()
}

#[test]
fn read_gives_back_what_was_written() {
    let mut m = map(3, 2);
    writeAt(&mut m, 1, 2, 7);
    assert_eq!(readAt(&m, 1, 2), 7);
    assert_eq!(m.arr, vec![0, 0, 0, 0, 0, 7]);
    writeAt(&mut m, 0, 1, 4);
    assert_eq!(readAt(&m, 0, 1), 4);
    assert_eq!(readAt(&m, 1, 2), 7);
}

#[test]
fn off_the_map() {
    let mut m = map(2, 2);
    writeAt(&mut m, -1, 0, 5);
    writeAt(&mut m, 0, 2, 5);
    writeAt(&mut m, 2, 0, 5);
    assert_eq!(m.arr, vec![0, 0, 0, 0]);
    m.arr = vec![1, 2, 3, 4];
    assert_eq!(readAt(&m, -1, -1), 0);
    assert_eq!(readAt(&m, 5, 0), 0);
    assert_eq!(readAt(&m, 1, 0), 3);
}

#[test]
fn crop_a_rect() {
    let mut m = map(3, 3);
    m.arr = vec![1, 2, 3, 4, 5, 6, 7, 8, 9];
    let c = crop(&m, 1, 1, 2, 2);
    assert_eq!((c.w, c.h), (2, 2));
    assert_eq!(c.arr, vec![5, 6, 8, 9]);
    // the part off the map is filled with the default
    let c = crop(&m, 2, 2, 2, 2);
    assert_eq!(c.arr, vec![9, 0, 0, 0]);
}

#[test]
fn draw_a_box() {
    let mut m = map(4, 3);
    map2dDrawBox(&mut m, 1, 1, 2, 5, 1);
    assert_eq!(rows(&m), vec![vec![0, 0, 0, 0], vec![0, 1, 1, 0], vec![0, 1, 1, 0]]);
}

#[test]
fn draw_a_circle() {
    let mut m = map(5, 5);
    map2dDrawCircle(&mut m, 2, 2, 1, 1);
    assert_eq!(
        rows(&m),
        vec![
            vec![0, 0, 0, 0, 0],
            vec![0, 0, 1, 0, 0],
            vec![0, 1, 1, 1, 0],
            vec![0, 0, 1, 0, 0],
            vec![0, 0, 0, 0, 0],
        ]
    );
    let mut m = map(5, 5);
    map2dDrawCircle(&mut m, 2, 2, 2, 3);
    assert_eq!(
        rows(&m),
        vec![
            vec![0, 0, 0, 0, 0],
            vec![0, 3, 3, 3, 0],
            vec![0, 3, 3, 3, 0],
            vec![0, 3, 3, 3, 0],
            vec![0, 0, 0, 0, 0],
        ]
    );
    // a radius of 0 draws the centre only; a negative one draws nothing
    let mut m = map(3, 3);
    map2dDrawCircle(&mut m, 1, 1, 0, 2);
    assert_eq!(m.arr, vec![0, 0, 0, 0, 2, 0, 0, 0, 0]);
    let mut m = map(3, 3);
    map2dDrawCircle(&mut m, 1, 1, -1, 2);
    assert_eq!(m.arr, vec![0; 9]);
}

#[test]
fn crop_reads_like_read_at() {
    let mut m = map(3, 2);
    m.arr = vec![1, 2, 3, 4, 5, 6];
    let (x, y, sx, sy) = (-1, 0, 4, 3);
    let c = crop(&m, x, y, sx, sy);
    assert_eq!((c.w, c.h, c.arr.len()), (4, 3, 12));
    for iy in 0..sy {
        for ix in 0..sx {
            assert_eq!(c.arr[(iy * sx + ix) as usize], readAt(&m, y + iy, x + ix));
        }
    }
}
