use gpu_usage::normalize::normalize;
use gpu_usage::process::{device_snapshots, Process};
use gpu_usage::record::parse_record;
use gpu_usage::snapshot::DrmData;
use gpu_usage::usage::GpuUsage;

fn snapshot(
    render: u128,
    compute: u128,
    copy: u128,
    encode: u128,
    decode: u128,
    enhance: u128,
    vram: u64,
    gtt: u64,
    cpuram: u64,
) -> DrmData {
    let mut d = DrmData::new();
    d.render_time = render;
    d.computation_time = compute;
    d.copy_time = copy;
    d.encode_time = encode;
    d.decode_time = decode;
    d.video_enhance_time = enhance;
    d.vram = vram;
    d.gtt = gtt;
    d.cpuram = cpuram;
    d
}

fn usage_of<'a>(p: &'a Process, key: &[u8]) -> Option<&'a GpuUsage> {
    for (k, g) in p.gpu_usage.iter() {
        if k.as_slice() == key {
            return Some(g);
        }
    }
    None
}

#[test]
fn additivity_is_exact_field_wise_sum() {
    let mut a = snapshot(1, 2, 3, 4, 5, 6, 7, 8, 9);
    let b = snapshot(10, 20, 30, 40, 50, 60, 70, 80, 90);
    a.add(b);
    assert_eq!(a.render_time, 11);
    assert_eq!(a.computation_time, 22);
    assert_eq!(a.copy_time, 33);
    assert_eq!(a.encode_time, 44);
    assert_eq!(a.decode_time, 55);
    assert_eq!(a.video_enhance_time, 66);
    assert_eq!(a.vram, 77);
    assert_eq!(a.gtt, 88);
    assert_eq!(a.cpuram, 99);
}

#[test]
fn addition_saturates_instead_of_overflowing() {
    let mut a = snapshot(u128::MAX, 0, 0, 0, 0, 0, u64::MAX, 0, 0);
    let b = snapshot(1, 0, 0, 0, 0, 0, 1, 0, 0);
    a.add(b);
    assert_eq!(a.render_time, u128::MAX);
    assert_eq!(a.vram, u64::MAX);
}

#[test]
fn normalizer_applies_unit_and_engine_table() {
    let rec = parse_record(
        b"drm-client-id: 1\n\
          drm-pdev: 0000:03:00.0\n\
          drm-engine-render: 1 ms\n\
          drm-engine-gfx: 2 us\n\
          drm-engine-compute: 3 ns\n\
          drm-engine-copy: 4 ns\n\
          drm-engine-enc: 5 ns\n\
          drm-engine-enc_1: 6 ns\n\
          drm-engine-dec: 7 ns\n\
          drm-engine-video-enhance: 8 ns\n\
          drm-memory-vram: 2048 mib\n\
          drm-memory-gtt: 9 kib\n\
          drm-memory-cpu: 3 b\n",
    );
    let (key, d) = normalize(&rec);
    assert_eq!(key, b"0000:03:00.0".to_vec());
    assert_eq!(d.render_time, 1_000_000 + 2_000);
    assert_eq!(d.computation_time, 3);
    assert_eq!(d.copy_time, 4);
    assert_eq!(d.encode_time, 5 + 6);
    assert_eq!(d.decode_time, 7);
    assert_eq!(d.video_enhance_time, 8);
    assert_eq!(d.vram, 2);
    assert_eq!(d.gtt, 9);
    assert_eq!(d.cpuram, 3072);
}

#[test]
fn video_engine_fans_out_to_encode_and_decode() {
    let rec = parse_record(b"drm-client-id: 1\ndrm-engine-video: 7 ms\n");
    let (_, d) = normalize(&rec);
    assert_eq!(d.encode_time, 7_000_000);
    assert_eq!(d.decode_time, 7_000_000);
    // and on top of dedicated counters, the same value goes to both
    let rec = parse_record(
        b"drm-client-id: 1\ndrm-engine-enc: 1 ns\ndrm-engine-dec: 2 ns\ndrm-engine-video: 5 ns\n",
    );
    let (_, d) = normalize(&rec);
    assert_eq!(d.encode_time, 1 + 5);
    assert_eq!(d.decode_time, 2 + 5);
}

#[test]
fn missing_client_id_contributes_nothing() {
    let contents = vec![
        b"drm-pdev: 0000:03:00.0\ndrm-engine-render: 5 ms\ndrm-memory-vram: 4 kib\n".to_vec(),
    ];
    let out = device_snapshots(&contents);
    assert!(out.is_empty());

    // even alongside a valid record, the invalid one adds nothing
    let contents = vec![
        b"drm-client-id: 1\ndrm-pdev: a\ndrm-engine-render: 1 ns\n".to_vec(),
        b"drm-pdev: a\ndrm-engine-render: 100 ns\n".to_vec(),
    ];
    let out = device_snapshots(&contents);
    assert_eq!(out.len(), 1);
    assert_eq!(out[0].0, b"a".to_vec());
    assert_eq!(out[0].1.render_time, 1);
}

#[test]
fn records_sharing_a_client_id_collapse_to_the_last() {
    let contents = vec![
        b"drm-client-id: 7\ndrm-pdev: a\ndrm-engine-render: 1 ns\n".to_vec(),
        b"drm-client-id: 7\ndrm-pdev: a\ndrm-engine-render: 100 ns\n".to_vec(),
    ];
    let out = device_snapshots(&contents);
    assert_eq!(out.len(), 1);
    assert_eq!(out[0].1.render_time, 100);
}

#[test]
fn contexts_on_one_device_are_summed() {
    let contents = vec![
        b"drm-client-id: 1\ndrm-pdev: a\ndrm-engine-render: 1 ns\ndrm-memory-vram: 10 kib\n".to_vec(),
        b"drm-client-id: 2\ndrm-pdev: a\ndrm-engine-render: 2 ns\ndrm-memory-vram: 20 kib\n".to_vec(),
        b"drm-client-id: 3\ndrm-pdev: b\ndrm-engine-render: 4 ns\n".to_vec(),
    ];
    let out = device_snapshots(&contents);
    assert_eq!(out.len(), 2);
    let a = out.iter().find(|e| e.0 == b"a".to_vec()).unwrap();
    let b = out.iter().find(|e| e.0 == b"b".to_vec()).unwrap();
    assert_eq!(a.1.render_time, 3);
    assert_eq!(a.1.vram, 30);
    assert_eq!(b.1.render_time, 4);
}

#[test]
fn missing_device_key_groups_under_empty_key() {
    let contents = vec![b"drm-client-id: 1\ndrm-engine-render: 6 ns\n".to_vec()];
    let out = device_snapshots(&contents);
    assert_eq!(out.len(), 1);
    assert_eq!(out[0].0, Vec::<u8>::new());
    assert_eq!(out[0].1.render_time, 6);
}

#[test]
fn first_observation_stores_the_fresh_snapshot() {
    let mut p = Process::new(String::from("17"), String::from("cad"));
    let contents = vec![
        b"drm-client-id: 1\ndrm-pdev: a\ndrm-engine-render: 100 ms\ndrm-memory-vram: 5 kib\n"
            .to_vec(),
    ];
    p.update(&contents, 1_000);
    assert_eq!(p.gpu_usage.len(), 1);
    let g = usage_of(&p, b"a").unwrap();
    assert_eq!(g.last_drm_data.render_time, 100_000_000);
    assert_eq!(g.last_drm_data.vram, 5);
    assert_eq!(g.last_calc_timestamp, 1_000);
    // no second sample yet: no interval, and the whole prior runtime as delta
    assert_eq!(g.interval, 0);
    assert_eq!(g.render, 100_000_000);
}

#[test]
fn rate_is_delta_over_elapsed_time() {
    let mut p = Process::new(String::from("17"), String::from("cad"));
    // previous snapshot: render busy 100 ms, captured at t = 0
    p.update(
        &vec![b"drm-client-id: 1\ndrm-pdev: a\ndrm-engine-render: 100 ms\n".to_vec()],
        0,
    );
    // new snapshot: render busy 150 ms, captured at t = 0.5 s
    p.update(
        &vec![b"drm-client-id: 1\ndrm-pdev: a\ndrm-engine-render: 150 ms\n".to_vec()],
        500_000_000,
    );
    let g = usage_of(&p, b"a").unwrap();
    assert_eq!(g.render, 50_000_000);
    assert_eq!(g.interval, 500_000_000);
    let rate = g.render as f64 / g.interval as f64;
    assert_eq!(rate, 0.1);
}

#[test]
fn backwards_counter_clamps_to_zero_delta() {
    let mut p = Process::new(String::from("1"), String::from("x"));
    p.update(
        &vec![b"drm-client-id: 1\ndrm-pdev: a\ndrm-engine-render: 100 ms\n".to_vec()],
        0,
    );
    p.update(
        &vec![b"drm-client-id: 1\ndrm-pdev: a\ndrm-engine-render: 40 ms\n".to_vec()],
        1_000,
    );
    let g = usage_of(&p, b"a").unwrap();
    assert_eq!(g.render, 0);
    assert_eq!(g.last_drm_data.render_time, 40_000_000);
}

#[test]
fn eviction_drops_devices_that_stopped_reporting() {
    let mut p = Process::new(String::from("17"), String::from("cad"));
    let tick1 = vec![
        b"drm-client-id: 1\ndrm-pdev: a\ndrm-engine-render: 10 ms\n".to_vec(),
        b"drm-client-id: 2\ndrm-pdev: b\ndrm-engine-render: 20 ms\n".to_vec(),
    ];
    p.update(&tick1, 100);
    assert!(usage_of(&p, b"a").is_some());
    assert!(usage_of(&p, b"b").is_some());

    // device b stops reporting: it is evicted, a is updated
    let tick2 = vec![b"drm-client-id: 1\ndrm-pdev: a\ndrm-engine-render: 15 ms\n".to_vec()];
    p.update(&tick2, 200);
    assert_eq!(p.gpu_usage.len(), 1);
    let a = usage_of(&p, b"a").unwrap();
    assert_eq!(a.last_drm_data.render_time, 15_000_000);
    assert_eq!(a.render, 5_000_000);
    assert_eq!(a.interval, 100);
    assert!(usage_of(&p, b"b").is_none());

    // nothing reports: everything is evicted
    p.update(&Vec::new(), 300);
    assert!(p.gpu_usage.is_empty());
}

#[test]
fn empty_tick_yields_no_snapshots() {
    assert!(device_snapshots(&Vec::new()).is_empty());
    assert!(device_snapshots(&vec![Vec::new()]).is_empty());
    assert!(device_snapshots(&vec![b"unrelated: 1\n".to_vec()]).is_empty());
}

#[test]
fn fresh_process_has_empty_table() {
    let p = Process::new(String::from("3"), String::from("init"));
    assert_eq!(p.pid, "3");
    assert_eq!(p.name, "init");
    assert!(p.gpu_usage.is_empty());
}

#[test]
fn usage_calculator_steps_stand_alone() {
    let mut g = GpuUsage::new(1_000);
    assert_eq!(g.last_calc_timestamp, 1_000);
    assert_eq!(g.interval, 0);
    let mut d = DrmData::new();
    d.decode_time = 30;
    g.update(d, 1_010);
    assert_eq!(g.decode, 30);
    assert_eq!(g.interval, 10);
    assert_eq!(g.last_drm_data.decode_time, 30);
}
