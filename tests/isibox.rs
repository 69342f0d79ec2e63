use timepix3::cluster::{ClusterCorrection, CollectionElectron, SingleElectron};
use timepix3::coincidence::{process_slices, CalibrationData, Photon, TempTdcData};
use timepix3::error::Tp3ErrorKind;
use timepix3::packet::TDC_OVERFLOW;
use timepix3::tdc::{PeriodicTdcRef, WrapCounter};
use timepix3::isibox::{correct_coincidence_isi, sync_with_retry, 
    add_overflow, correct_tdc, decode_isi_word, timelist_with_tp3_tick, isi_events, repair_pass, subtract_overflow,
    IsiBoxCorrectVector, IsiEvent, IsiList, IsiSync, ISI_OVERFLOW,
};

fn ev(time: u64, channel: u32) -> IsiEvent {
    IsiEvent { time, channel, spim_index: None, spim_frame: None, dt: None }
}

#[test]
fn isi_word_fields() {
    let w: u32 = (16 << 27) | 123_456;
    assert_eq!(decode_isi_word(w), (16, 123_456));
    let bytes = w.to_le_bytes();
    let evs = isi_events(&[bytes[0], bytes[1], bytes[2], bytes[3], 1, 0, 0, 8, 9]);
    assert_eq!(evs.len(), 2);
    assert_eq!(evs[0], ev(123_456, 16));
    assert_eq!(evs[1], ev(1, 1));
}

#[test]
fn clock_arithmetic_wraps() {
    assert_eq!(subtract_overflow(10, 4), 6);
    assert_eq!(subtract_overflow(4, 10), ISI_OVERFLOW - 6);
    assert_eq!(subtract_overflow(7, 7), 0);
    assert_eq!(add_overflow(ISI_OVERFLOW - 1, 3), 2);
}

#[test]
fn line_time_is_first_repeated_gap() {
    let mut l = IsiList::new(4, 2, 100);
    for (t, c) in [(100u32, 16u32), (150, 3), (1100, 16), (2000, 16), (2900, 16), (3800, 16)] {
        l.add_event(c, t);
        if c == 16 {
            l.increase_counter(t);
        }
    }
    assert_eq!(l.counter, 5);
    assert_eq!(l.overflow, 0);
    l.determine_line_time();
    assert_eq!(l.line_time, Some(900));
}

#[test]
fn missing_lines_are_inserted() {
    let s = vec![ev(0, 16), ev(10_000, 16), ev(30_000, 16), ev(30_100, 2)];
    let r = repair_pass(&s, 10_000);
    assert_eq!(r.len(), 5);
    assert_eq!(r[2], ev(20_000, 16));
    assert_eq!(repair_pass(&r, 10_000), r);
    let mut l = IsiList::new(4, 2, 100);
    l.data_raw = vec![ev(0, 16), ev(5_000, 16), ev(15_000, 16), ev(45_000, 16)];
    l.line_time = Some(10_000);
    l.check_for_issues();
    let times: Vec<u64> = l.data_raw.iter().map(|e| e.time).collect();
    assert_eq!(times, vec![5_000, 15_000, 25_000, 35_000, 45_000]);
}

#[test]
fn events_get_unwrapped_times_and_pixels() {
    let mut l = IsiList::new(4, 2, 100);
    l.data_raw = vec![ev(1000, 16), ev(1150, 3), ev(1390, 4), ev(1500, 3), ev(5, 16), ev(210, 3)];
    l.correct_data();
    let d = &l.data_raw;
    assert_eq!(d[1].spim_index, Some(4 + 1));
    assert_eq!(d[1].spim_frame, Some(0));
    assert_eq!(d[2].spim_index, Some(4 + 3));
    assert_eq!(d[3].spim_index, None);
    assert_eq!(d[4].time, 5 + ISI_OVERFLOW);
    assert_eq!(d[5].time, 210 + ISI_OVERFLOW);
    assert_eq!(d[5].spim_index, Some(2));
    assert_eq!(d[5].spim_frame, Some(1));
    assert!(d.windows(2).all(|w| w[0].time <= w[1].time));
}

#[test]
fn offsets_spread_and_applied() {
    let mut v = IsiBoxCorrectVector::new(5);
    v.add_offset(2, 7);
    v.add_offset(3, 9);
    assert_eq!(v.corr, vec![Some(7), Some(7), Some(7), Some(9), None]);
    let mut tdc: Vec<Photon> = (0..5u64).map(|t| Photon { time: t * 100, channel: 1, g2: None }).collect();
    correct_tdc(&mut tdc, &mut v);
    let times: Vec<u64> = tdc.iter().map(|p| p.time).collect();
    assert_eq!(times, vec![7, 107, 207, 309, 400]);
    assert_eq!(v.corr, vec![Some(0), Some(0), Some(0), Some(0), None]);
}

#[test]
fn sync_follows_steady_offset_and_stops_on_jump() {
    let mut s = IsiSync { offset: 0, quit: false, correct: IsiBoxCorrectVector::new(6) };
    s.line_edge(10_500, 1_000_000, 1, 10_000);
    assert_eq!((s.offset, s.quit), (500, false));
    s.line_edge(20_600, 1_000_000, 3, 20_000);
    assert_eq!((s.offset, s.quit), (600, false));
    assert_eq!(s.correct.corr, vec![Some(500), Some(500), Some(600), Some(600), None, None]);
    s.line_edge(40_000, 1_000_000, 4, 30_000);
    assert!(s.quit);
}

#[test]
fn photon_pairs_between_channels() {
    let mut l = IsiList::new(4, 2, 100);
    l.data_raw = vec![ev(1000, 0), ev(1200, 12), ev(9000, 12), ev(20_000, 0), ev(19_000, 12)];
    let pairs = l.search_coincidence(0, 12);
    assert_eq!(pairs, vec![(200, None, None), (-1000, None, None)]);
    assert_eq!(l.data_raw[0].dt, Some(200));
    assert_eq!(l.data_raw[1].dt, Some(200));
    assert_eq!(l.data_raw[2].dt, None);
    assert_eq!(l.data_raw[3].dt, Some(-1000));
    assert_eq!(l.data_raw[4].dt, Some(-1000));
}

#[test]
fn isibox_times_in_tp3_ticks() {
    let s = vec![ev(50, 3), ev(15625, 16), ev(31250, 2)];
    assert!(timelist_with_tp3_tick(&s).is_none());
    let s = vec![ev(15625, 16), ev(31250, 2)];
    let v = timelist_with_tp3_tick(&s).unwrap();
    assert_eq!(v[0], Photon { time: 0, channel: 16, g2: None });
    assert_eq!(v[1], Photon { time: 7200, channel: 2, g2: None });
    let mut l = IsiList::new(1, 1, 1);
    l.data_raw = s.clone();
    assert_eq!(l.get_timelist_with_tp3_tick(), Some(v));
}

#[test]
fn sync_points_are_scan_triggers() {
    let mut t = TempTdcData::new();
    t.add_tdc(10, 0);
    t.add_tdc(20, 16);
    t.add_tdc(30, 24);
    t.add_tdc(40, 16);
    assert_eq!(t.get_sync(), vec![(1, 20), (3, 40)]);
    t.sort();
    assert_eq!(t.clean_tdc.len(), 1);
}

#[test]
fn calibration_rows() {
    let mut c = CalibrationData::new();
    let mut e = CollectionElectron::new();
    e.add_electron(SingleElectron { time: 1000, x: 70_000, y: 300, tot: 5, frame_dt: 870, spim_slice: 0, cluster_size: 2 });
    c.append_from_collection(e);
    assert_eq!(c.rel_time, vec![-126]);
    assert_eq!(c.x, vec![65535]);
    assert_eq!(c.y, vec![44]);
    assert_eq!(c.tot, vec![5]);
    assert_eq!(c.cluster_size, vec![2]);
}

#[test]
fn slices_without_scan_are_empty() {
    let mut e = CollectionElectron::new();
    e.add_electron(SingleElectron { time: 1, x: 1, y: 1, tot: 1, frame_dt: 0, spim_slice: 0, cluster_size: 1 });
    let (slices, returns) = process_slices(e, None, &ClusterCorrection::NoCorrection);
    assert!(slices.is_empty() && returns.is_empty());
}

fn line_tdc() -> PeriodicTdcRef {
    PeriodicTdcRef {
        id: 10,
        period: 7200,
        low_time: 7200,
        begin_frame: 0,
        last_time: 0,
        counter: 0,
        lines_per_frame: 1,
        clock: WrapCounter { modulus: TDC_OVERFLOW, last_raw: 0, wraps: 0 },
    }
}

fn tp3_lines(coarse: &[u64]) -> Vec<u8> {
    let mut d = Vec::new();
    for c in coarse {
        let w: u64 = (6u64 << 60) | (10u64 << 56) | (c << 9);
        d.extend_from_slice(&w.to_le_bytes());
    }
    d
}

#[test]
fn isibox_clock_follows_tp3_lines() {
    let mut isi = IsiList::new(4, 2, 100);
    isi.data_raw = vec![ev(0, 16), ev(3 * 15625, 3), ev(6 * 15625, 16), ev(12 * 15625, 16)];
    let tp3 = tp3_lines(&[3600, 7200, 10800]);
    let (photons, read) = correct_coincidence_isi(&tp3, &isi, line_tdc(), 0).unwrap();
    assert_eq!(read, 24);
    let times: Vec<u64> = photons.tdc.iter().map(|p| p.time).collect();
    assert_eq!(times, vec![43200, 21600 + 43200, 43200 + 43200, 86400 + 43200]);
    assert_eq!(photons.clean_tdc.len(), 1);
    assert_eq!(photons.clean_tdc[0].time, 21600 + 43200);
    assert_eq!(photons.min_index, 0);
    let (skipped, _) = correct_coincidence_isi(&tp3, &isi, line_tdc(), 1).unwrap();
    assert_eq!(skipped.tdc[0].time, 86400);
    assert_eq!(sync_with_retry(&tp3, &isi, line_tdc()).unwrap().0.tdc, photons.tdc);
}

#[test]
fn isibox_without_lines_cannot_sync() {
    let mut isi = IsiList::new(4, 2, 100);
    isi.data_raw = vec![ev(5, 3)];
    let tp3 = tp3_lines(&[3600, 7200]);
    assert_eq!(correct_coincidence_isi(&tp3, &isi, line_tdc(), 0).err(), Some(Tp3ErrorKind::IsiBoxCouldNotSync));
    isi.data_raw = vec![ev(0, 16)];
    let mut tp3 = tp3_lines(&[3600, 7200]);
    tp3.extend_from_slice(&[0u8; 64]);
    assert_eq!(correct_coincidence_isi(&tp3, &isi, line_tdc(), 0).err(), Some(Tp3ErrorKind::IsiBoxCouldNotSync));
}
