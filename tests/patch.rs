use sailfish::{range2d, Axis, CopyError, Device, IndexSpace, Patch};

fn bits(x: f64) -> u64 {
    x.to_bits()
}

fn devices() -> Vec<Device> {
    (0..2).map(|id| Device::with_id(id).unwrap()).collect()
}

#[test]
fn copy_patch_subset_from_host_to_device() {
    for device in devices() {
        let src_space = range2d(10, 20, 0, 200);
        let dst_space = range2d(0, 100, 0, 200);
        let src = Patch::from_vector_function(&src_space, |(i, j)| [bits(i as f64), bits(j as f64)]);
        let mut dst = Patch::zeros(2, &dst_space).into_device(device);
        src.copy_into(&mut dst);
        assert_eq!(
            src.into_host().as_slice(),
            dst.extract(&src_space).into_host().as_slice()
        );
    }
}

fn fill_guard_regions_impl(device: Option<Device>) {
    let setup = |(i, j): (i64, i64)| [bits(i as f64), bits(j as f64), bits(0.0)];

    let local_space = range2d(0, 256, 0, 256);
    let primitive = Patch::from_vector_function(&local_space, setup);

    let local_space = primitive.index_space();
    let local_space_ext = local_space.extend_all(2);
    let global_space_ext = range2d(0, 1024, 0, 1024).extend_all(2);

    let guard_spaces = [
        global_space_ext.keep_lower(2, Axis::I),
        global_space_ext.keep_upper(2, Axis::I),
        global_space_ext.keep_lower(2, Axis::J),
        global_space_ext.keep_upper(2, Axis::J),
    ];

    let mut primitive1 = Patch::zeros(3, &local_space.extend_all(2)).on(device);
    primitive.copy_into(&mut primitive1);

    for space in guard_spaces {
        if let Some(overlap) = space.intersect(&local_space_ext) {
            Patch::from_vector_function(&overlap, setup).copy_into(&mut primitive1)
        }
    }

    assert_eq!(
        primitive1.extract(&local_space).into_host().as_slice(),
        primitive.as_slice()
    );
}

#[test]
fn fill_guard_regions_on_host() {
    fill_guard_regions_impl(None)
}

#[test]
fn fill_guard_regions_on_device() {
    fill_guard_regions_impl(Device::with_id(0))
}

#[test]
fn guard_regions_on_a_second_device() {
    fill_guard_regions_impl(Device::with_id(1))
}

#[test]
fn zeros_has_one_zone_per_point_and_extracts_to_itself() {
    let space = range2d(-3, 4, 2, 7);
    let z = Patch::zeros(3, &space);
    assert_eq!(z.as_slice().unwrap().len(), 7 * 5 * 3);
    assert!(z.as_slice().unwrap().iter().all(|&x| x == 0));
    let e = z.extract(&space);
    assert_eq!(e.index_space(), space);
    assert_eq!(e.num_fields(), 3);
    assert_eq!(e.device(), None);
    assert_eq!(e.as_slice(), z.as_slice());
}

#[test]
fn zeros_over_an_empty_space() {
    let z = Patch::zeros(4, &range2d(5, 5, 0, 10));
    assert_eq!(z.as_slice().unwrap().len(), 0);
}

#[test]
fn device_round_trip_keeps_values() {
    let space = range2d(0, 6, -2, 3);
    let p = Patch::from_vector_function(&space, |(i, j)| [bits(i as f64 * 0.5), bits(j as f64 - 1.25)]);
    for device in devices() {
        let d = p.to_device(device);
        assert_eq!(d.device(), Some(device));
        assert!(d.as_slice().is_none());
        assert_eq!(d.as_device_buffer().unwrap().len(), p.as_slice().unwrap().len());
        let h = d.to_host();
        assert_eq!(h.device(), None);
        assert_eq!(h.as_slice(), p.as_slice());
        assert_eq!(h.rect(), p.rect());
    }
}

#[test]
fn overlap_copy_writes_overlap_and_keeps_sentinel() {
    let f = |(i, j): (i64, i64)| [(i * 1000 + j) as u64, (i + j) as u64];
    let a = range2d(0, 8, 0, 8);
    let b = range2d(5, 12, -3, 4);
    let sentinel: u64 = 0xdead_beef;
    for target_device in [None, Device::with_id(0), Device::with_id(1)] {
        for source_device in [None, Device::with_id(0), Device::with_id(1)] {
            let src = Patch::from_vector_function(&a, f).on(source_device);
            let mut dst = Patch::from_vector_function(&b, |_| [sentinel, sentinel]).on(target_device);
            src.copy_into(&mut dst);
            assert_eq!(dst.device(), target_device);
            let host = dst.to_host();
            let data = host.as_slice().unwrap();
            let mut k = 0;
            for i in 5..12i64 {
                for j in -3..4i64 {
                    let expected = if i < 8 && j >= 0 { f((i, j)) } else { [sentinel, sentinel] };
                    assert_eq!(&data[k..k + 2], &expected[..]);
                    k += 2;
                }
            }
        }
    }
}

#[test]
fn cross_device_copy_matches_host_staged_copy() {
    let f = |(i, j): (i64, i64)| [bits(i as f64 / 3.0), bits(-(j as f64))];
    let a = range2d(-4, 10, 0, 9);
    let b = range2d(0, 16, 3, 20);
    let src0 = Patch::from_vector_function(&a, f).on(Device::with_id(0));
    let mut on_device1 = Patch::zeros(2, &b).on(Device::with_id(1));
    src0.copy_into(&mut on_device1);
    let src_host = Patch::from_vector_function(&a, f);
    let mut on_host = Patch::zeros(2, &b);
    src_host.copy_into(&mut on_host);
    assert_eq!(on_device1.device(), Device::with_id(1));
    assert_eq!(on_device1.into_host().as_slice(), on_host.as_slice());
}

#[test]
fn copy_refuses_field_count_mismatch() {
    let src = Patch::zeros(2, &range2d(0, 4, 0, 4));
    let mut dst = Patch::zeros(3, &range2d(0, 4, 0, 4));
    assert_eq!(src.try_copy_into(&mut dst), Err(CopyError::FieldCountMismatch));
}

#[test]
fn copy_refuses_disjoint_spaces() {
    let src = Patch::from_scalar_function(&range2d(0, 4, 0, 4), |_| 7);
    let mut dst = Patch::zeros(1, &range2d(4, 8, 0, 4));
    assert_eq!(src.try_copy_into(&mut dst), Err(CopyError::NoOverlap));
    assert!(dst.as_slice().unwrap().iter().all(|&x| x == 0));
    let mut dst2 = Patch::zeros(1, &range2d(3, 8, 0, 4));
    assert_eq!(src.try_copy_into(&mut dst2), Ok(()));
    assert_eq!(dst2.as_slice().unwrap()[..4], [7, 7, 7, 7]);
    assert_eq!(dst2.as_slice().unwrap()[4], 0);
}

#[test]
fn extract_refuses_space_outside_source() {
    let p = Patch::zeros(1, &range2d(0, 4, 0, 4));
    assert!(p.try_extract(&range2d(1, 5, 0, 4)).is_none());
    assert!(p.try_extract(&range2d(1, 3, 1, 3)).is_some());
}

#[test]
fn extract_takes_the_sub_block() {
    let p = Patch::from_scalar_function(&range2d(0, 3, 0, 4), |(i, j)| (10 * i + j) as u64);
    let e = p.extract(&range2d(1, 3, 2, 4));
    assert_eq!(e.as_slice().unwrap(), &[12, 13, 22, 23]);
    let d = p.to_device(Device::with_id(1).unwrap()).extract(&range2d(1, 3, 2, 4));
    assert_eq!(d.device(), Device::with_id(1));
    assert_eq!(d.into_host().as_slice().unwrap(), &[12, 13, 22, 23]);
}

#[test]
fn map_mut_overwrites_only_the_subset() {
    let mut p = Patch::zeros(2, &range2d(0, 3, 0, 3));
    p.map_mut(&range2d(1, 5, 2, 5), |(i, j)| vec![i as u64, j as u64]);
    let data = p.as_slice().unwrap();
    assert_eq!(data, &[0, 0, 0, 0, 0, 0, 0, 0, 0, 0, 1, 2, 0, 0, 0, 0, 2, 2]);
}

#[test]
fn from_slice_function_calls_once_per_point_in_order() {
    let calls = std::cell::RefCell::new(Vec::new());
    let p = Patch::from_slice_function(&range2d(0, 2, 5, 7), 1, |(i, j)| {
        calls.borrow_mut().push((i, j));
        vec![calls.borrow().len() as u64]
    });
    assert_eq!(calls.into_inner(), vec![(0, 5), (0, 6), (1, 5), (1, 6)]);
    assert_eq!(p.as_slice().unwrap(), &[1, 2, 3, 4]);
}

#[test]
fn from_host_data_checks_length() {
    let space = range2d(0, 2, 0, 2);
    assert!(Patch::from_host_data(&space, 2, vec![1, 2, 3]).is_none());
    let p = Patch::from_host_data(&space, 2, vec![1, 2, 3, 4, 5, 6, 7, 8]).unwrap();
    assert_eq!(p.as_slice().unwrap(), &[1, 2, 3, 4, 5, 6, 7, 8]);
    assert_eq!(p.num_fields(), 2);
}

#[test]
fn time_exec_runs_the_work_once() {
    let mut n = 0;
    let _elapsed = sailfish::time_exec(|| n += 1);
    assert_eq!(n, 1);
}
