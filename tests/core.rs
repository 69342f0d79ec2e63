use timepix3::cluster::{ClusterCorrection, CollectionElectron, SingleElectron};
use timepix3::coincidence::{process_slices, split_events, ElectronData, SpimGeometry, Photon, StreamClocks, TempTdcData, PHOTON_WRAP};
use timepix3::counter::append_to_array;
use timepix3::error::Tp3ErrorKind;
use timepix3::narrow::{double_from_16_to_8, from_16_to_8};
use timepix3::packet::{decode_event, decode_stream, encode_pixel, Event, Packet, PixelHit, ELECTRON_OVERFLOW, TDC_OVERFLOW};
use timepix3::settings::{Mode, Settings};
use timepix3::spectrum::{create_header, SpectrumBuilder};
use timepix3::spim::{event_counter, spim_detector, spim_return_detector, Output, SpimBuilder, SPIM_PIXELS};
use timepix3::tdc::{tr_check_if_in, NonPeriodicTdcRef, PeriodicTdcRef, TdcRef, TdcType, WrapCounter};

fn hit_at(chip: u8, x: u8, y: u8, t: u64) -> PixelHit {
    let spidr = (t / 262144) as u16;
    let rem = t % 262144;
    PixelHit { chip, x, y, toa: (rem / 16) as u16, ftoa: (15 - rem % 16) as u8, tot: 1, spidr }
}

fn tdc_bytes(kind: u8, coarse: u64, fine: u64) -> [u8; 8] {
    let w: u64 = (6u64 << 60) | ((kind as u64) << 56) | (coarse << 9) | (fine << 5);
    w.to_le_bytes()
}

fn periodic(id: u8, period: u64, low_time: u64, lines_per_frame: u64) -> PeriodicTdcRef {
    PeriodicTdcRef {
        id,
        period,
        low_time,
        begin_frame: 0,
        last_time: 0,
        counter: 0,
        lines_per_frame,
        clock: WrapCounter { modulus: TDC_OVERFLOW, last_raw: 0, wraps: 0 },
    }
}

fn non_periodic(id: u8) -> TdcRef {
    TdcRef::NonPeriodic(NonPeriodicTdcRef {
        id,
        last_time: 0,
        counter: 0,
        clock: WrapCounter { modulus: TDC_OVERFLOW, last_raw: 0, wraps: 0 },
    })
}

fn config(b: &[u8]) -> Vec<u8> {
    let mut v = b.to_vec();
    v.resize(16, 0);
    v
}

fn spim_settings(x: usize, y: usize) -> Settings {
    let mut c = config(&[0, 2, 0, 2]);
    c[4] = (x >> 8) as u8;
    c[5] = x as u8;
    c[6] = (y >> 8) as u8;
    c[7] = y as u8;
    c[9] = x as u8;
    c[11] = y as u8;
    Settings::from_config(&c).unwrap()
}

#[test]
fn pixel_round_trip_bytes() {
    let bytes: [u8; 8] = [0x12, 0x34, 0x56, 0x78, 0x9a, 0xbc, 0xde, 0xbf];
    match decode_event(&bytes, 0, 2) {
        Event::Pixel(h) => {
            assert_eq!(h.chip, 2);
            assert_eq!(encode_pixel(&h), bytes);
        }
        e => panic!("not a pixel: {:?}", e),
    }
}

#[test]
fn pixel_fields_survive_encoding() {
    let h = PixelHit { chip: 1, x: 201, y: 77, toa: 12345, ftoa: 9, tot: 1000, spidr: 54321 };
    let b = encode_pixel(&h);
    assert_eq!(b[7] >> 4, 11);
    assert_eq!(decode_event(&b, 0, 1), Event::Pixel(h));
    let p = Packet { chip_index: 1, data: u64::from_le_bytes(b) };
    assert_eq!(p.x(), 1020 - 201);
    assert_eq!(p.x_unmod(), 255 - 201);
    assert_eq!(p.y(), 77);
    assert_eq!(p.toa(), 12345);
    assert_eq!(p.ftoa(), 9);
    assert_eq!(p.tot(), 1000);
    assert_eq!(p.spidr(), 54321);
    assert_eq!(p.id(), 11);
    assert_eq!(p.electron_time(), 54321 * 262144 + 12345 * 16 + 6);
}

#[test]
fn tdc_packet_fields() {
    let b = tdc_bytes(10, 123_456_789, 7);
    let p = Packet { chip_index: 0, data: u64::from_le_bytes(b) };
    assert_eq!(p.id(), 6);
    assert_eq!(p.tdc_type(), 10);
    assert_eq!(p.tdcCoarseT(), 123_456_789);
    assert_eq!(p.tdcFineT(), 7);
    assert_eq!(p.tdc_time(), 123_456_789 * 12 + 7);
    assert_eq!(p.tdc_time_norm(), (123_456_789 * 12 + 7) / 6);
    assert_eq!(TdcType::TdcOneRisingEdge.associate_value(), 15);
    assert_eq!(TdcType::TdcTwoFallingEdge.associate_value(), 11);
}

#[test]
fn chip_header_is_sticky() {
    let mut data = vec![84, 80, 88, 51, 3, 0, 0, 0];
    data.extend_from_slice(&encode_pixel(&hit_at(0, 10, 20, 1000)));
    let (evs, chip) = decode_stream(&data, 0).unwrap();
    assert_eq!(chip, 3);
    assert_eq!(evs[0], Event::ChipHeader(3));
    match evs[1] {
        Event::Pixel(h) => assert_eq!(h.chip, 3),
        _ => panic!("expected a pixel"),
    }
}

#[test]
fn misaligned_stream_is_refused() {
    assert_eq!(decode_stream(&[0u8; 12], 0).unwrap_err(), Tp3ErrorKind::DecodeAlignment);
}

#[test]
fn live2d_single_hit_frame() {
    let set = Settings::from_config(&config(&[0, 1, 0, 0, 0, 1, 0, 1])).unwrap();
    let mut data = vec![0x54, 0x50, 0x58, 0x33, 0, 0, 0, 0];
    data.extend_from_slice(&encode_pixel(&PixelHit { chip: 0, x: 250, y: 10, toa: 0, ftoa: 0, tot: 1, spidr: 0 }));
    let mut b = SpectrumBuilder::new(set, periodic(15, 1000, 1000, 1), non_periodic(14));
    assert!(!b.build_data(&data));
    let frame = b.take_frame();
    assert_eq!(frame.len(), 2 * 1024 * 256 + 1);
    assert_eq!(frame[20490], 1);
    assert_eq!(frame.iter().filter(|&&v| v != 0).count(), 2);
    assert_eq!(frame[frame.len() - 1], b'\n');
    let header = String::from_utf8(create_header(&set, &b.frame_tdc)).unwrap();
    assert!(header.contains("\"dataSize\":524288"));
    assert_eq!(
        header,
        "{\"timeAtFrame\":0.0000000000000,\"frameNumber\":0,\"measurementID:\"Null\",\"dataSize\":524288,\"bitDepth\":16,\"width\":1024,\"height\":256}\n"
    );
}

#[test]
fn frame_tdc_closes_frame_and_resets() {
    let set = Settings::from_config(&config(&[1, 0, 0, 0, 0, 1, 0, 1])).unwrap();
    let mut b = SpectrumBuilder::new(set, periodic(15, 1000, 1000, 1), non_periodic(14));
    let mut data = encode_pixel(&hit_at(0, 0, 3, 10)).to_vec();
    data.extend_from_slice(&tdc_bytes(15, 500, 0));
    assert!(b.build_data(&data));
    assert_eq!(b.frame_tdc.counter(), 1);
    assert_eq!(b.frame_tdc.time(), 1000);
    let f = b.take_frame();
    assert_eq!(f.len(), 1025);
    assert_eq!(f[255], 1);
    assert!(b.frame.iter().take(1024).all(|&v| v == 0));
}

#[test]
fn counters_carry_and_saturate() {
    let mut d = vec![255u8, 0, 0];
    append_to_array(&mut d, 0, 2);
    assert_eq!(d, vec![0, 1, 0]);
    let mut d = vec![255u8, 255];
    append_to_array(&mut d, 0, 2);
    assert_eq!(d, vec![255, 255]);
    let mut d = vec![254u8];
    assert!(!Packet::append_to_array(&mut d, 0, 1));
    assert!(Packet::append_to_array(&mut d, 0, 1));
    assert_eq!(d, vec![255]);
    let mut d = vec![0u8, 255, 0, 7];
    assert!(Packet::append_to_array(&mut d, 1, 2));
    assert_eq!(d, vec![0, 0, 1, 7]);
    let mut d = vec![9u8, 255, 255, 255, 255];
    assert!(!Packet::append_to_array(&mut d, 1, 4));
    assert_eq!(d, vec![9, 255, 255, 255, 255]);
}

#[test]
fn settings_live2d_from_blob() {
    let s = Settings::from_config(&config(&[0, 1, 0, 0, 0, 4, 0, 2])).unwrap();
    assert!(!s.bin);
    assert_eq!(s.bytedepth, 2);
    assert!(!s.cumul);
    assert_eq!(s.mode, Mode::Live2D);
    assert_eq!(s.frame_height(), 256);
}

#[test]
fn settings_bad_bytedepth() {
    assert_eq!(Settings::from_config(&config(&[0, 9, 0, 0, 0, 1, 0, 1])), Err(Tp3ErrorKind::SetByteDepth));
}

#[test]
fn settings_errors_in_order() {
    assert_eq!(Settings::from_config(&config(&[2, 9, 0, 0, 0, 1, 0, 1])), Err(Tp3ErrorKind::SetBin));
    assert_eq!(Settings::from_config(&config(&[0, 0, 5, 0, 0, 1, 0, 1])), Err(Tp3ErrorKind::SetCumul));
    assert_eq!(Settings::from_config(&config(&[0, 0, 0, 3, 0, 1, 0, 1])), Err(Tp3ErrorKind::MiscModeNotImplemented(3)));
    assert_eq!(Settings::from_config(&config(&[0, 0, 0, 2, 0, 0, 0, 1])), Err(Tp3ErrorKind::SetXSize));
    assert_eq!(Settings::from_config(&config(&[0, 0, 0, 2, 0, 1, 0, 0])), Err(Tp3ErrorKind::SetYSize));
}

#[test]
fn settings_long_form() {
    let blob = [1, 4, 1, 8, 0, 64, 0, 32, 0, 128, 0, 16, 0, 50, 1, 0, 0, 20, 1, 0];
    let s = Settings::from_config(&blob).unwrap();
    assert!(s.bin && s.cumul && s.save_locally);
    assert_eq!(s.bytedepth, 8);
    assert_eq!(s.mode, Mode::IsiBoxSaveLocally);
    assert_eq!((s.xspim_size, s.yspim_size, s.xscan_size, s.yscan_size), (64, 32, 128, 16));
    assert_eq!((s.pixel_time, s.time_delay, s.time_width), (50, 256, 20));
    assert_eq!((s.spimoverscanx, s.spimoverscany), (2, 1));
}

#[test]
fn zero_width_gate_takes_nothing() {
    for delay in [0u64, 1, 5, 100] {
        for ele in [0u64, 3, 99, 1000, 1234] {
            assert_eq!(tr_check_if_in(ele, 1000, 100, delay, 0), None);
        }
    }
    assert_eq!(tr_check_if_in(1035, 1000, 100, 30, 10), Some(0));
    assert_eq!(tr_check_if_in(1234, 1000, 100, 30, 10), None);
    assert_eq!(tr_check_if_in(835, 1000, 100, 30, 10), Some(2));
    assert_eq!(tr_check_if_in(845, 1000, 100, 30, 10), None);
}

#[test]
fn single_pixel_spim_maps_to_energy_axis() {
    let s = spim_settings(1, 1);
    for t in [1000u64, 1500, 2999, 123_456] {
        assert_eq!(spim_detector(t, 1000, 2000, 2000, &s), Some(0));
    }
    assert_eq!(spim_detector(999, 1000, 2000, 2000, &s), None);
}

#[test]
fn last_tick_of_line_is_last_column() {
    let s = spim_settings(10, 4);
    let begin = 5000;
    let period = 1_000_000;
    assert_eq!(spim_detector(begin + period - 1, begin, period, period, &s), Some(9 * SPIM_PIXELS));
    assert_eq!(spim_detector(begin + 2 * period, begin, period, period, &s), Some(2 * 10 * SPIM_PIXELS));
    assert_eq!(spim_detector(begin + 600_001, begin, 600_000, period, &s), None);
}

#[test]
fn uniform_hits_fill_columns_evenly() {
    let s = spim_settings(10, 1);
    let line = periodic(10, 1_000_000, 1_000_000, 1);
    let mut b = SpimBuilder::new(s, line, non_periodic(14));
    for k in 0..500u64 {
        b.process(&Event::Pixel(hit_at(0, 255, 0, k * 2000)));
    }
    let mut counts = [0usize; 10];
    for &i in b.list.iter() {
        counts[i / SPIM_PIXELS] += 1;
        assert_eq!(i % SPIM_PIXELS, 0);
    }
    assert_eq!(counts, [50; 10]);
}

#[test]
fn spim_buffer_to_message() {
    let s = spim_settings(4, 1);
    let mut b = SpimBuilder::new(s, periodic(10, 4000, 4000, 1), non_periodic(14));
    let mut data = Vec::new();
    for t in [10u64, 20, 1010, 30] {
        data.extend_from_slice(&encode_pixel(&hit_at(0, 250, 1, t)));
    }
    let out = b.build_spim_data(&data).unwrap();
    assert_eq!(out.data, vec![5, 5, 1025 + 5, 5]);
    let msg = out.build_output();
    let mut expect = b"{StartUnique}".to_vec();
    expect.extend_from_slice(&[3, 1]);
    expect.extend_from_slice(b"{StartIndexes}");
    expect.extend_from_slice(&[0, 0, 0, 5, 0, 0, 4, 6]);
    assert_eq!(msg, expect);
    assert!(b.build_spim_data(&[]).is_none());
}

#[test]
fn run_counts_add_up_and_split_long_runs() {
    let mut v = vec![7usize; 300];
    v.extend_from_slice(&[1, 2, 2]);
    let msg = event_counter(v);
    let body = &msg[13..];
    let (counts, rest) = body.split_at(4);
    assert_eq!(counts, &[1, 2, 255, 45]);
    assert_eq!(&rest[..14], b"{StartIndexes}");
    let idx = &rest[14..];
    assert_eq!(idx.len(), 4 * 4);
    let msg2 = event_counter(vec![7usize; 300]);
    assert_eq!(&msg2[13..15], &[255, 45]);
    let total: usize = msg2[13..15].iter().map(|&c| c as usize).sum();
    assert_eq!(total, 300);
}

#[test]
fn message_ignores_order() {
    let a = event_counter(vec![9, 1, 5, 1, 1 << 33]);
    let b = event_counter(vec![1, 1 << 33, 9, 1, 5]);
    assert_eq!(a, b);
    assert_eq!(event_counter(vec![]), b"{StartUnique}{StartIndexes}".to_vec());
}

#[test]
fn clustered_output_counts_events_once() {
    let mut o: Output<(u64, usize, usize, u8)> = Output { data: Vec::new() };
    o.upt((100, 10, 7, 11));
    o.upt((110, 11, 8, 11));
    o.upt((500, 10, 9, 11));
    o.upt((300, 300, 9, 6));
    assert!(o.check());
    let msg = o.build_output();
    let mut expect = b"{StartUnique}".to_vec();
    expect.extend_from_slice(&[1, 2]);
    expect.extend_from_slice(b"{StartIndexes}");
    expect.extend_from_slice(&[0, 0, 0, 7, 0, 0, 0, 9]);
    assert_eq!(msg, expect);
}

fn electron(time: u64, x: usize, y: usize) -> SingleElectron {
    SingleElectron { time, x, y, tot: 10, frame_dt: 0, spim_slice: 0, cluster_size: 1 }
}

#[test]
fn close_pair_becomes_one_centroid() {
    let t = 1_000_000u64;
    let mut c = CollectionElectron::new();
    c.add_electron(electron(t + 19, 40, 60));
    c.add_electron(electron(t, 40, 60));
    c.sort();
    assert!(c.try_clean(0, &ClusterCorrection::AverageCorrection));
    assert_eq!(c.data.len(), 1);
    let e = c.data[0];
    assert_eq!((e.cluster_size, e.x, e.y, e.time), (2, 40, 60, t + 9));
}

#[test]
fn centroid_lies_within_members() {
    let mut c = CollectionElectron::new();
    for (t, x) in [(100u64, 10usize), (120, 11), (140, 12), (1000, 500), (1010, 501)] {
        c.add_electron(electron(t, x, 0));
    }
    assert!(c.try_clean(0, &ClusterCorrection::AverageCorrection));
    assert_eq!(c.data.len(), 2);
    assert_eq!((c.data[0].time, c.data[0].x, c.data[0].cluster_size), (120, 11, 3));
    assert_eq!((c.data[1].time, c.data[1].x, c.data[1].cluster_size), (1005, 500, 2));
}

#[test]
fn clean_input_is_left_alone() {
    let mut c = CollectionElectron::new();
    c.add_electron(electron(100, 10, 10));
    c.add_electron(electron(200, 10, 10));
    c.add_electron(electron(210, 20, 10));
    let before = c.data.clone();
    assert!(!c.try_clean(0, &ClusterCorrection::AverageCorrection));
    assert_eq!(c.data, before);
    let mut d = CollectionElectron::new();
    d.add_electron(electron(100, 10, 10));
    d.add_electron(electron(101, 10, 10));
    assert!(!d.try_clean(5, &ClusterCorrection::AverageCorrection));
    assert!(!d.try_clean(0, &ClusterCorrection::NoCorrection));
    assert_eq!(d.len(), 2);
}

#[test]
fn coincidence_at_delay() {
    let mut data = ElectronData::new(None, ClusterCorrection::NoCorrection);
    let mut c = CollectionElectron::new();
    c.add_electron(electron(1_000_000, 30, 5));
    let mut tdc = TempTdcData::new();
    tdc.add_tdc(6_000_624, 0);
    tdc.add_tdc(6_000_624 + 6 * 41, 0);
    tdc.add_tdc(6_000_000, 16);
    let es = data.add_events(c, &mut tdc, 104, 40);
    assert_eq!(es.len(), 1);
    assert_eq!(tdc.photon_count(), 2);
    assert_eq!(data.records.len(), 1);
    let r = data.records[0];
    assert_eq!(r.rel_time, 0);
    assert_eq!((r.x, r.y, r.abs_time, r.spim_index, r.channel), (30, 5, 1_000_000, u32::MAX, 0));
    assert_eq!(data.spectrum[30], 1);
    assert_eq!(data.spectrum[SPIM_PIXELS - 1], 2);
    assert_eq!(data.corr_spectrum[30], 1);
    assert_eq!(data.corr_spectrum[SPIM_PIXELS - 1], 1);
}

#[test]
fn every_coincidence_is_within_width() {
    let mut data = ElectronData::new(None, ClusterCorrection::NoCorrection);
    let mut es = Vec::new();
    for k in 0..50u64 {
        es.push(electron(10_000 + k * 97, 1, 1));
    }
    let ps: Vec<Photon> = (0..80u64).map(|k| Photon { time: 6 * (9_000 + k * 61), channel: 1, g2: None }).collect();
    data.add_events_sorted(&es, &ps, 0, 104, 40);
    assert!(!data.records.is_empty());
    for r in data.records.iter() {
        assert!(r.rel_time.abs() < 40);
    }
}

#[test]
fn unwrapped_times_stay_monotone() {
    let mut c = WrapCounter::new(ELECTRON_OVERFLOW);
    let raws = [5u64, ELECTRON_OVERFLOW - 10, ELECTRON_OVERFLOW - 1, 3, 100, 2, 2];
    let mut last = 0u64;
    for r in raws {
        let t = c.advance(r);
        assert!(t >= last);
        last = t;
    }
    assert_eq!(c.wraps, 2);
    assert_eq!(last, 2 * ELECTRON_OVERFLOW + 2);
}

#[test]
fn periodic_reference_is_learned_and_follows_edges() {
    let mut data = Vec::new();
    data.extend_from_slice(&tdc_bytes(10, 1000, 0));
    data.extend_from_slice(&tdc_bytes(15, 1300, 0));
    data.extend_from_slice(&tdc_bytes(10, 1500, 0));
    let mut r = PeriodicTdcRef::new(TdcType::TdcOneFallingEdge, &data, 2).unwrap();
    assert_eq!((r.period, r.low_time, r.last_time, r.counter), (1000, 600, 3000, 0));
    assert!(r.upt(4000));
    assert!(!r.upt(4010));
    assert!(r.upt(5000));
    assert_eq!((r.counter(), r.begin_frame, r.time()), (2, 5000, 5000));
    assert_eq!(r.estimate_time(3), Some(8000));
    assert!(PeriodicTdcRef::new(TdcType::TdcOneRisingEdge, &data, 1).is_none());
    let np = NonPeriodicTdcRef::new(TdcType::TdcOneRisingEdge, &data).unwrap();
    assert_eq!(np.time(), 2600);
}

#[test]
fn narrowing_carries_into_next_byte() {
    assert_eq!(from_16_to_8(&[3, 300, 4]), vec![3, 45, 5]);
    assert_eq!(double_from_16_to_8(&[100, 200, 1], &[100, 100, 2]), vec![200, 45, 4]);
}

#[test]
fn second_photon_goes_to_double_column() {
    let mut data = ElectronData::new(None, ClusterCorrection::NoCorrection);
    let es = vec![electron(1_000_000, 3, 4), electron(2_000_000, 3, 4)];
    let ps = vec![
        Photon { time: 6 * 1_000_100, channel: 0, g2: None },
        Photon { time: 6 * 1_000_110, channel: 0, g2: None },
        Photon { time: 6 * 1_000_120, channel: 0, g2: None },
        Photon { time: 6 * 2_000_104, channel: 0, g2: None },
    ];
    data.add_events_sorted(&es, &ps, 0, 104, 40);
    assert_eq!(data.records.len(), 4);
    assert_eq!(data.double_photon_rel_time, vec![4, -6]);
    assert_eq!(data.spectrum[3], 2);
    assert_eq!(data.corr_spectrum[3], 4);
}

#[test]
fn single_chip_columns() {
    let h = PixelHit { chip: 0, x: 17, y: 2, toa: 0, ftoa: 0, tot: 0, spidr: 0 };
    assert_eq!(h.diffraction_x(), Some(17));
    assert_eq!(h.global_x(), 238);
    let g = PixelHit { chip: 5, ..h };
    assert_eq!(g.diffraction_x(), None);
    assert_eq!(g.global_x(), 17);
    assert_eq!(PixelHit { chip: 2, ..h }.global_x(), 765 - 17);
}

#[test]
fn frame_sum_is_number_of_hits_in_window() {
    let set = Settings::from_config(&config(&[0, 1, 0, 1, 0, 1, 0, 1, 0, 0, 0, 0, 0, 30, 0, 20])).unwrap();
    assert_eq!(set.mode, Mode::LiveTR2D);
    let laser = TdcRef::Periodic(PeriodicTdcRef { last_time: 10_000, ..periodic(14, 1000, 500, 1) });
    let mut b = SpectrumBuilder::new(set, periodic(15, 100_000, 100_000, 1), laser);
    let times = [10_035u64, 10_049, 10_050, 9_040, 9_029, 10_500, 8_031];
    let mut data = Vec::new();
    for (k, t) in times.iter().enumerate() {
        data.extend_from_slice(&encode_pixel(&hit_at(0, (k * 3) as u8, 7, *t)));
    }
    b.build_data(&data);
    let frame = b.take_frame();
    let total: u64 = frame[..frame.len() - 1].chunks(2).map(|c| c[0] as u64 + 256 * c[1] as u64).sum();
    assert_eq!(total, 4);
}

#[test]
fn flyback_hits_map_to_return_pixels() {
    let s = spim_settings(10, 4);
    let begin = 1000;
    assert_eq!(spim_return_detector(begin + 500, begin, 800, 1000, &s), None);
    assert_eq!(spim_return_detector(begin + 900, begin, 800, 1000, &s), Some(5 * SPIM_PIXELS));
    assert_eq!(spim_return_detector(begin + 1999, begin, 800, 1000, &s), Some((10 + 9) * SPIM_PIXELS));
    assert_eq!(spim_detector(begin + 900, begin, 800, 1000, &s), None);
    assert_eq!(spim_return_detector(10, begin, 800, 1000, &s), None);
}

#[test]
fn events_split_into_electrons_and_photons() {
    let mut data = encode_pixel(&hit_at(1, 20, 3, 500)).to_vec();
    data.extend_from_slice(&tdc_bytes(14, 1000, 3));
    data.extend_from_slice(&tdc_bytes(10, 7, 0));
    data.extend_from_slice(&tdc_bytes(10, 500, 0));
    let (events, _) = decode_stream(&data, 0).unwrap();
    let (es, ps, clocks) = split_events(&events, 14, 10, StreamClocks::new(Some(periodic(10, 1000, 1000, 1))));
    assert_eq!(es.data.len(), 1);
    assert_eq!((es.data[0].x, es.data[0].y, es.data[0].time), (235, 3, 500));
    assert_eq!(ps.tdc, vec![Photon { time: 12_003, channel: 0, g2: None }]);
    assert_eq!(clocks.line.unwrap().counter, 1);
    assert_eq!(clocks.line.unwrap().last_time, 1000);
}

#[test]
fn hit_and_photon_clocks_stay_together_across_wraps() {
    // a hit and a photon 30 s in, past the first wrap of the hit clock
    let mut clocks = StreamClocks::new(None);
    let mut t = 0u64;
    let mut last_e = 0u64;
    let mut last_p = 0u64;
    while t < 19_200_000_000 + ELECTRON_OVERFLOW {
        let mut data = encode_pixel(&hit_at(0, 100, 1, t % ELECTRON_OVERFLOW)).to_vec();
        let fine = (t * 6) % PHOTON_WRAP;
        data.extend_from_slice(&tdc_bytes(14, fine / 12, fine % 12));
        let (events, _) = decode_stream(&data, 0).unwrap();
        let (es, ps, next) = split_events(&events, 14, 10, clocks);
        clocks = next;
        assert_eq!(es.data[0].time, t);
        assert_eq!(ps.tdc[0].time / 6, t);
        assert!(es.data[0].time >= last_e && ps.tdc[0].time >= last_p);
        last_e = es.data[0].time;
        last_p = ps.tdc[0].time;
        t += 4_000_000_000;
    }
    assert_eq!(clocks.electrons.wraps, 2);
}

#[test]
fn flyback_hits_go_to_the_return_scan() {
    let mut c = CollectionElectron::new();
    c.add_electron(SingleElectron { frame_dt: 500, ..electron(10, 1, 1) });
    c.add_electron(SingleElectron { frame_dt: 900, ..electron(500, 30, 30) });
    let g = SpimGeometry { tdc: periodic(10, 1000, 800, 1), settings: spim_settings(10, 4) };
    let (slices, returns) = process_slices(c, Some(g), &ClusterCorrection::NoCorrection);
    assert_eq!(slices, vec![(6, 0)]);
    assert_eq!(returns, vec![(5, 0)]);
}
