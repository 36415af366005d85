use katara::dispatch::{lattice_cell, lattice_layers, workgroup_count, PingPong, WORKGROUP_SIZE};

#[test]
fn workgroups_cover_every_particle() {
    assert_eq!(WORKGROUP_SIZE, 128);
    assert_eq!(workgroup_count(0), 0);
    assert_eq!(workgroup_count(1), 1);
    assert_eq!(workgroup_count(128), 1);
    assert_eq!(workgroup_count(129), 2);
    assert_eq!(workgroup_count(10_000), 79);
    assert_eq!(workgroup_count(u32::MAX), 33_554_432);
}

#[test]
fn lattice_layout() {
    assert_eq!(lattice_layers(10, 2, 2), 3);
    assert_eq!(lattice_layers(8, 2, 2), 2);
    assert_eq!(lattice_layers(0, 3, 3), 0);
    assert_eq!(lattice_cell(0, 2, 3), (0, 0, 0));
    assert_eq!(lattice_cell(1, 2, 3), (1, 0, 0));
    assert_eq!(lattice_cell(2, 2, 3), (0, 1, 0));
    assert_eq!(lattice_cell(6, 2, 3), (0, 0, 1));
    assert_eq!(lattice_cell(11, 2, 3), (1, 2, 1));
}

#[test]
fn ping_pong_alternates() {
    let mut p = PingPong::new();
    assert_eq!(p.velocity_buffer_index(), 0);
    p.advance();
    assert_eq!(p.velocity_buffer_index(), 1);
    p.advance();
    assert_eq!(p.velocity_buffer_index(), 0);
}

#[test]
fn lattice_cells_are_distinct_and_inside_the_layers() {
    let (n, nx, ny) = (23usize, 3usize, 2usize);
    let nz = lattice_layers(n, nx, ny);
    let mut seen = std::collections::HashSet::new();
    for i in 0..n {
        let (x, y, z) = lattice_cell(i, nx, ny);
        assert!(x < nx && y < ny && z < nz);
        assert!(seen.insert((x, y, z)));
    }
}
