use marching_shapes::MarchPoint;
use marching_shapes::Mask;

fn active(bits: u8, i: usize) -> bool {
    (bits >> i) & 1 == 1
}

fn ones(bits: u8, n: usize) -> usize {
    (0..n).filter(|&i| active(bits, i)).count()
}

fn clusters(bits: u8, n: usize) -> usize {
    (0..n).filter(|&i| active(bits, i) && !active(bits, (i + n - 1) % n)).count()
}

fn expected_len(bits: u8, n: usize) -> usize {
    let a = ones(bits, n);
    let k = clusters(bits, n);
    if a == 0 {
        0
    } else if a == n {
        n.saturating_sub(2)
    } else {
        2 * a - 1 + usize::from(k > 1) + k / 2
    }
}

fn neighbours(n: usize, i: u8, j: u8) -> bool {
    let (i, j) = (i as usize, j as usize);
    (i + 1) % n == j % n || (j + 1) % n == i % n
}

fn meshes<const N: usize>() -> Vec<(u8, Vec<[MarchPoint; 3]>)> {
    let top = Mask::<N>::max();
    (0..=top).map(|bits| (bits, Mask::<N>::new(bits).march())).collect()
}

fn check_corners<const N: usize>() {
    for (bits, mesh) in meshes::<N>() {
        for triangle in &mesh {
            for corner in triangle {
                assert!(corner.fits(N), "{bits:#b}: {corner:?}");
                match *corner {
                    MarchPoint::At(i) => assert!((i as usize) < N),
                    MarchPoint::Between(i, j) => {
                        assert!((i as usize) < N && (j as usize) < N);
                        assert!(neighbours(N, i, j), "{bits:#b}: {corner:?}");
                    }
                }
            }
        }
    }
}

fn check_lengths<const N: usize>() {
    for (bits, mesh) in meshes::<N>() {
        assert_eq!(mesh.len(), expected_len(bits, N), "{bits:#b}");
        if N >= 2 {
            assert!(mesh.len() <= 2 * N - 3, "{bits:#b}");
        } else {
            assert!(mesh.is_empty());
        }
    }
}

fn check_repeatable<const N: usize>() {
    for (bits, mesh) in meshes::<N>() {
        assert_eq!(Mask::<N>::new(bits).march(), mesh);
    }
}

fn check_active_vertices_are_corners<const N: usize>() {
    for (bits, mesh) in meshes::<N>() {
        if ones(bits, N) == N && N < 3 {
            assert!(mesh.is_empty());
            continue;
        }
        for i in 0..N {
            let used = mesh.iter().any(|t| t.iter().any(|c| *c == MarchPoint::At(i as u8)));
            assert_eq!(used, active(bits, i), "{bits:#b}: vertex {i}");
        }
    }
}

/// The mesh, laid cluster by cluster: for each run of active vertices its
/// cap, the bridge back to the run before it, and two triangles for each
/// further vertex; then the bridge from the last run to the first, and the
/// triangles among the join points.
fn by_clusters(bits: u8, n: usize) -> Vec<[MarchPoint; 3]> {
    let at = |v: usize| MarchPoint::At(v as u8);
    let before = |v: usize| MarchPoint::Between(v as u8, ((v + n - 1) % n) as u8);
    let after = |v: usize| MarchPoint::Between(v as u8, ((v + 1) % n) as u8);
    if ones(bits, n) == 0 {
        return Vec::new();
    }
    if ones(bits, n) == n {
        return (0..n.saturating_sub(2)).map(|i| [at(0), at(i + 1), at(i + 2)]).collect();
    }
    let start = (0..n).find(|&i| active(bits, i) && !active(bits, (i + n - 1) % n)).unwrap();
    let mut runs: Vec<(usize, usize)> = Vec::new();
    let mut p = 0;
    while p < n {
        let first = (start + p) % n;
        if active(bits, first) {
            let mut len = 1;
            while active(bits, (first + len) % n) {
                len += 1;
            }
            runs.push((first, len));
            p += len;
        } else {
            p += 1;
        }
    }
    let join = |run: (usize, usize)| before(run.0);
    let end = |run: (usize, usize)| after((run.0 + run.1 - 1) % n);
    let mut mesh = Vec::new();
    for (c, &run) in runs.iter().enumerate() {
        mesh.push([at(run.0), after(run.0), before(run.0)]);
        if c > 0 {
            mesh.push([join(run), join(runs[c - 1]), end(runs[c - 1])]);
        }
        for t in 1..run.1 {
            let v = (run.0 + t) % n;
            mesh.push([before(v), at(v), join(run)]);
            mesh.push([at(v), after(v), join(run)]);
        }
    }
    let k = runs.len();
    if k > 1 {
        mesh.push([join(runs[0]), join(runs[k - 1]), end(runs[k - 1])]);
    }
    let mut idx = 0;
    while idx + 1 < k {
        mesh.push([join(runs[idx]), join(runs[idx + 1]), join(runs[(idx + 2) % k])]);
        idx += 2;
    }
    mesh
}

fn check_by_clusters<const N: usize>() {
    for (bits, mesh) in meshes::<N>() {
        assert_eq!(mesh, by_clusters(bits, N), "{bits:#b}");
    }
}

#[test]
fn every_mesh_is_laid_cluster_by_cluster() {
    check_by_clusters::<1>();
    check_by_clusters::<2>();
    check_by_clusters::<3>();
    check_by_clusters::<4>();
    check_by_clusters::<5>();
    check_by_clusters::<6>();
    check_by_clusters::<7>();
    check_by_clusters::<8>();
}

#[test]
fn every_corner_lies_on_the_polygon() {
    check_corners::<1>();
    check_corners::<2>();
    check_corners::<3>();
    check_corners::<4>();
    check_corners::<5>();
    check_corners::<6>();
    check_corners::<7>();
    check_corners::<8>();
}

#[test]
fn every_mesh_has_the_counted_length() {
    check_lengths::<1>();
    check_lengths::<2>();
    check_lengths::<3>();
    check_lengths::<4>();
    check_lengths::<5>();
    check_lengths::<6>();
    check_lengths::<7>();
    check_lengths::<8>();
}

#[test]
fn every_mesh_is_repeatable() {
    check_repeatable::<1>();
    check_repeatable::<2>();
    check_repeatable::<3>();
    check_repeatable::<4>();
    check_repeatable::<5>();
    check_repeatable::<6>();
    check_repeatable::<7>();
    check_repeatable::<8>();
}

#[test]
fn corners_at_vertices_are_the_active_vertices() {
    check_active_vertices_are_corners::<1>();
    check_active_vertices_are_corners::<2>();
    check_active_vertices_are_corners::<3>();
    check_active_vertices_are_corners::<4>();
    check_active_vertices_are_corners::<5>();
    check_active_vertices_are_corners::<6>();
    check_active_vertices_are_corners::<7>();
    check_active_vertices_are_corners::<8>();
}

#[test]
fn mesh_can_be_longer_than_the_polygon() {
    // Four active vertices in a row on a hexagon take seven triangles.
    assert_eq!(Mask::<6>::new(0b001111).march().len(), 7);
    assert_eq!(Mask::<6>::new(0b000111).march().len(), 5);
}

#[test]
fn longest_meshes() {
    assert_eq!(Mask::<8>::new(0b01111111).march().len(), 13);
    assert_eq!(Mask::<8>::new(0b01111011).march().len(), 13);
    assert_eq!(Mask::<8>::new(0b00111101).march().len(), 11);
    assert_eq!(Mask::<3>::new(0b011).march().len(), 3);
}
