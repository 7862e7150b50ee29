use elsdc::compat::generate_compatibility_matrix;
use elsdc::matrix_text::format_matrix;
use elsdc::overlap::{mask_overlap, pair_score, Overlap};

/// A `side` by `side` mask with a filled disc of radius `r` at `(cx, cy)`.
fn disc(side: i64, cx: i64, cy: i64, r: i64) -> Vec<u8> {
    let mut m = Vec::new();
    for y in 0..side {
        for x in 0..side {
            let d = (x - cx) * (x - cx) + (y - cy) * (y - cy);
            m.push(if d <= r * r { 255 } else { 0 });
        }
    }
    m
}

#[test]
fn overlap_counts() {
    let a = [0u8, 1, 1, 0, 255];
    let b = [0u8, 0, 3, 9, 1];
    assert_eq!(mask_overlap(&a, &b), Some(Overlap { intersection_area: 2, union_area: 4 }));
    assert_eq!(mask_overlap(&a, &b[..4]), None);
}

#[test]
fn identical_masks_score_one() {
    let a = disc(20, 10, 10, 5);
    let o = mask_overlap(&a, &a).unwrap();
    assert!(o.union_area > 0);
    assert_eq!(o.intersection_area, o.union_area);
}

#[test]
fn disjoint_masks_score_zero() {
    let a = disc(40, 8, 8, 5);
    let b = disc(40, 30, 30, 5);
    let o = mask_overlap(&a, &b).unwrap();
    assert_eq!(o.intersection_area, 0);
    assert!(o.union_area > 0);
}

#[test]
fn closer_discs_overlap_more() {
    let a = disc(60, 30, 30, 8);
    let mut last = 0.0f64;
    for d in (0..=20).rev() {
        let b = disc(60, 30 + d, 30, 8);
        let o = mask_overlap(&a, &b).unwrap();
        let score = o.intersection_area as f64 / o.union_area as f64;
        assert!(score >= last);
        last = score;
    }
    assert_eq!(last, 1.0);
}

#[test]
fn empty_masks() {
    assert_eq!(mask_overlap(&[], &[]), Some(Overlap { intersection_area: 0, union_area: 0 }));
    assert_eq!(pair_score(&None), Overlap { intersection_area: 0, union_area: 0 });
    assert_eq!(pair_score(&Some((vec![1, 1], vec![1]))), Overlap { intersection_area: 0, union_area: 0 });
    assert_eq!(pair_score(&Some((vec![1, 0], vec![1, 1]))), Overlap { intersection_area: 1, union_area: 2 });
}

#[test]
fn matrix_is_symmetric_and_each_pair_drawn_once() {
    let centers = [(10i64, 10i64), (14, 10), (40, 40)];
    let calls = std::cell::RefCell::new(Vec::new());
    let m = generate_compatibility_matrix(3, |i: usize, j: usize| {
        calls.borrow_mut().push((i, j));
        if i == 2 && j == 2 {
            return None;
        }
        let (ax, ay) = centers[i];
        let (bx, by) = centers[j];
        Some((disc(60, ax, ay, 5), disc(60, bx, by, 5)))
    });
    assert_eq!(*calls.borrow(), vec![(0, 0), (0, 1), (0, 2), (1, 1), (1, 2), (2, 2)]);
    assert_eq!(m.len(), 3);
    for i in 0..3 {
        assert_eq!(m[i].len(), 3);
        for j in 0..3 {
            assert_eq!(m[i][j], m[j][i]);
            assert!(m[i][j].intersection_area <= m[i][j].union_area);
        }
    }
    assert_eq!(m[0][0].intersection_area, m[0][0].union_area);
    assert!(m[0][1].intersection_area > 0 && m[0][1].intersection_area < m[0][1].union_area);
    assert_eq!(m[0][2].intersection_area, 0);
    assert_eq!(m[2][2], Overlap { intersection_area: 0, union_area: 0 });
}

#[test]
fn empty_matrix() {
    let m = generate_compatibility_matrix(0, |_i: usize, _j: usize| None);
    assert!(m.is_empty());
}

#[test]
fn matrix_text_format() {
    let m = vec![
        vec![Overlap { intersection_area: 4, union_area: 4 }, Overlap { intersection_area: 1, union_area: 3 }],
        vec![Overlap { intersection_area: 1, union_area: 3 }, Overlap { intersection_area: 0, union_area: 0 }],
    ];
    let text = String::from_utf8(format_matrix(&m)).unwrap();
    assert_eq!(text, "1.0000 0.3333 \n0.3333 0.0000 \n");
}

#[test]
fn matrix_text_rounds_half_up() {
    let m = vec![vec![
        Overlap { intersection_area: 2, union_area: 3 },
        Overlap { intersection_area: 1, union_area: 20000 },
        Overlap { intersection_area: 0, union_area: 9 },
        Overlap { intersection_area: 99999, union_area: 100000 },
    ]];
    let text = String::from_utf8(format_matrix(&m)).unwrap();
    assert_eq!(text, "0.6667 0.0001 0.0000 1.0000 \n");
}

#[test]
fn matrix_text_reads_back() {
    let n = 4;
    let m: Vec<Vec<Overlap>> = (0..n)
        .map(|i| (0..n).map(|j| Overlap { intersection_area: i.min(j) * 7 + 1, union_area: i.max(j) * 13 + 3 }).collect())
        .collect();
    let text = String::from_utf8(format_matrix(&m)).unwrap();
    let rows: Vec<&str> = text.lines().collect();
    assert_eq!(rows.len(), n);
    for (i, row) in rows.iter().enumerate() {
        let values: Vec<f64> = row.split_whitespace().map(|v| v.parse().unwrap()).collect();
        assert_eq!(values.len(), n);
        for (j, v) in values.iter().enumerate() {
            let exact = m[i][j].intersection_area as f64 / m[i][j].union_area as f64;
            assert!((v - exact).abs() <= 0.00005 + 1e-12);
        }
    }
}

#[test]
fn empty_matrix_text() {
    assert!(format_matrix(&Vec::new()).is_empty());
}
