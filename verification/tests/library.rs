use mini_disco::audio::{
    atracdenc_bitrate, check_input_file, command_error_detail, command_error_detail_from_lines,
    conversion_route, error_detail_text, finish_atracdenc, finish_ffmpeg_to_pcm, finish_ffmpeg_to_wav,
    is_ffmpeg_progress_line, parse_ffmpeg_progress_percent, parse_ffmpeg_timestamp_us,
    percent_from_duration, progress_line_time_fits, strip_oma_header, AudioError,
    ConversionRoute, EncodingProgress, ProgressTracker,
};
use mini_disco::cli::RawFormat;
use mini_disco::device::{
    audio_frames_to_md_time_frames, audio_frames_to_seconds, md_time_frames_to_seconds,
    DeviceError, DeviceListing, DeviceSnapshot, Disc, Group, RawUploadFormat, Track,
    UploadRequest,
};
use mini_disco::m3u::{parse_playlist, M3uError, PlaylistTrack};
use mini_disco::netmd::{
    blank_to_none, check_disc_writable, check_track_write, check_upload_capacity,
    disc_from_readings, group_from_readings, map_create_group_precondition_error,
    map_delete_track_precondition_error, map_erase_precondition_error, map_open_error,
    map_rename_precondition_error, map_rename_track_precondition_error, matches_filter,
    matches_supported_filter, normalize_capacity, open_error_for, protection_label,
    select_device_index,
    track_from_readings, UsbFilter, UsbIds,
};
use mini_disco::output::{
    devices_human_lines, disc_human_lines, empty_fallback, format_duration, format_hex_bytes,
};
use mini_disco::titles::{
    check_group_request, compile_group_titles, group_plan_computable,
    half_width_range_to_full_width, plan_group_titles, sanitize_full_width_component,
    sanitize_half_width_component,
};
use mini_disco::udev::{doctor_lines, NETMD_RULES_PATH};
use mini_disco::workflow::{
    fallback_title, raw_upload_format, track_number_to_index, upload_failure_hint,
    upload_summary_lines, EncodingProgressPrinter, M3uAbort, M3uAction, M3uEvent, M3uSession,
};

fn track(index: u16) -> Track {
    Track {
        index,
        title: None,
        duration_seconds: None,
        channels: None,
        codec: None,
        protected: None,
    }
}

fn disc_with(track_count: usize, groups: Vec<Group>) -> Disc {
    Disc {
        title: String::new(),
        full_width_title: String::new(),
        writable: true,
        write_protected: false,
        used_seconds: None,
        left_seconds: None,
        total_seconds: None,
        track_count,
        groups,
    }
}

// ---------------------------------------------------------------------------
// Upload data and frame arithmetic
// ---------------------------------------------------------------------------

#[test]
fn prepare_pads_to_whole_frames_with_zeros() {
    for (format, size) in [
        (RawUploadFormat::Sp, 2048usize),
        (RawUploadFormat::Lp2, 192),
        (RawUploadFormat::Lp105, 152),
        (RawUploadFormat::Lp4, 96),
    ] {
        for len in [1usize, size - 1, size, size + 1, 3 * size + 7] {
            let data: Vec<u8> = (0..len).map(|i| (i % 251 + 1) as u8).collect();
            let prepared = UploadRequest {
                title: "t".to_string(),
                format,
                data: data.clone(),
            }
            .prepare()
            .unwrap();
            assert_eq!(prepared.data.len() % size, 0);
            assert_eq!(&prepared.data[..len], &data[..]);
            assert!(prepared.data[len..].iter().all(|b| *b == 0));
            assert_eq!(prepared.padded_bytes, prepared.data.len() - len);
            assert!(prepared.padded_bytes < size);
            assert_eq!(prepared.frame_count as usize, prepared.data.len() / size);
            assert_eq!(prepared.format, format);
            assert_eq!(prepared.title, "t");
        }
    }
}

#[test]
fn prepare_keeps_exact_frames_unpadded() {
    let prepared = UploadRequest {
        title: "x".to_string(),
        format: RawUploadFormat::Lp2,
        data: vec![7; 384],
    }
    .prepare()
    .unwrap();
    assert_eq!(prepared.data, vec![7; 384]);
    assert_eq!(prepared.padded_bytes, 0);
    assert_eq!(prepared.frame_count, 2);
    assert_eq!(prepared.estimated_duration_seconds(), 1);
    assert_eq!(prepared.required_md_time_frames(), 12);
}

#[test]
fn frame_conversions_round_up() {
    assert_eq!(audio_frames_to_seconds(0), 0);
    assert_eq!(audio_frames_to_seconds(1), 1);
    assert_eq!(audio_frames_to_seconds(86), 1);
    assert_eq!(audio_frames_to_seconds(87), 2);
    assert_eq!(audio_frames_to_md_time_frames(1), 6);
    assert_eq!(md_time_frames_to_seconds(512), 1);
    assert_eq!(md_time_frames_to_seconds(513), 2);
}

#[test]
fn seconds_agree_through_md_time_frames() {
    for frames in [0u64, 1, 2, 86, 87, 1000, 13_702, 123_456, 1_000_000] {
        assert_eq!(
            md_time_frames_to_seconds(audio_frames_to_md_time_frames(frames)),
            audio_frames_to_seconds(frames)
        );
    }
}

#[test]
fn frame_conversions_are_monotonic() {
    let samples = [0u64, 1, 5, 86, 87, 500, 13_702, 20_000];
    for a in samples {
        for b in samples {
            if a <= b {
                assert!(audio_frames_to_seconds(a) <= audio_frames_to_seconds(b));
                assert!(audio_frames_to_md_time_frames(a) <= audio_frames_to_md_time_frames(b));
            }
        }
    }
}

#[test]
fn format_labels_and_frame_sizes() {
    assert_eq!(RawUploadFormat::Sp.label(), "SP");
    assert_eq!(RawUploadFormat::Lp105.label(), "LP105");
    assert_eq!(RawUploadFormat::Lp4.frame_size(), 96);
    assert_eq!(raw_upload_format(RawFormat::Lp105), RawUploadFormat::Lp105);
    assert_eq!(raw_upload_format(RawFormat::Sp), RawUploadFormat::Sp);
}

// ---------------------------------------------------------------------------
// Devices and the disc
// ---------------------------------------------------------------------------

#[test]
fn selected_device_is_always_in_range() {
    for count in 0usize..5 {
        for requested in [None, Some(0usize), Some(1), Some(2), Some(3), Some(7)] {
            if let Ok(i) = select_device_index(requested, count) {
                assert!(i < count);
            }
        }
    }
}

#[test]
fn no_device_is_not_found() {
    assert!(matches!(select_device_index(None, 0), Err(DeviceError::NotFound)));
    assert!(matches!(select_device_index(Some(1), 0), Err(DeviceError::NotFound)));
}

#[test]
fn open_errors_that_mean_no_device_become_not_found() {
    assert!(matches!(
        map_open_error("Device NOT FOUND".to_string()),
        DeviceError::NotFound
    ));
    assert!(matches!(
        map_open_error("No Device attached".to_string()),
        DeviceError::NotFound
    ));
    match map_open_error("Access denied".to_string()) {
        DeviceError::Open(m) => assert_eq!(m, "Access denied"),
        other => panic!("unexpected {other:?}"),
    }
}

#[test]
fn lower_cased_open_errors_are_classified() {
    assert!(matches!(
        open_error_for("Device NOT FOUND".to_string(), "device not found"),
        DeviceError::NotFound
    ));
    assert!(matches!(
        open_error_for("x".to_string(), "no device here"),
        DeviceError::NotFound
    ));
    // The decision reads the lower-cased text only.
    match open_error_for("Device NOT FOUND".to_string(), "device NOT FOUND") {
        DeviceError::Open(m) => assert_eq!(m, "Device NOT FOUND"),
        other => panic!("unexpected {other:?}"),
    }
}

#[test]
fn usb_filters_let_the_last_set_field_decide() {
    let d = UsbIds {
        vendor_id: 0x054c,
        product_id: 0x0075,
        class: 0xff,
        subclass: 0,
        protocol: 0,
    };
    let by_ids = UsbFilter {
        vendor_id: Some(0x054c),
        product_id: Some(0x0075),
        class: None,
        subclass: None,
        protocol: None,
    };
    let other_product = UsbFilter {
        product_id: Some(0x0080),
        ..by_ids
    };
    let wrong_vendor = UsbFilter {
        vendor_id: Some(0x1234),
        ..by_ids
    };
    let nothing = UsbFilter {
        vendor_id: None,
        product_id: None,
        class: None,
        subclass: None,
        protocol: None,
    };
    assert!(matches_filter(&by_ids, &d));
    assert!(!matches_filter(&other_product, &d));
    assert!(matches_filter(&wrong_vendor, &d));
    assert!(!matches_filter(&nothing, &d));
    assert!(matches_supported_filter(&vec![other_product, by_ids], &d));
    assert!(!matches_supported_filter(&vec![other_product, nothing], &d));
    assert!(!matches_supported_filter(&Vec::new(), &d));
}

#[test]
fn disc_flags_decide_writes() {
    assert!(check_disc_writable(0x10).is_ok());
    assert!(check_disc_writable(0x11).is_ok());
    assert!(matches!(check_disc_writable(0x50), Err(DeviceError::WriteProtected)));
    assert!(matches!(check_disc_writable(0x40), Err(DeviceError::WriteProtected)));
    assert!(matches!(check_disc_writable(0x00), Err(DeviceError::NotWritable)));
    assert!(matches!(check_disc_writable(0x20), Err(DeviceError::NotWritable)));
}

#[test]
fn track_writes_need_an_existing_track() {
    assert!(check_track_write(0x10, 2, 3).is_ok());
    assert!(matches!(
        check_track_write(0x10, 3, 3),
        Err(DeviceError::TrackNumberOutOfRange {
            track_number: 4,
            track_count: 3
        })
    ));
    assert!(matches!(check_track_write(0x00, 0, 3), Err(DeviceError::NotWritable)));
    assert!(matches!(check_track_write(0x50, 9, 3), Err(DeviceError::WriteProtected)));
}

#[test]
fn capacity_is_halved_until_it_fits_one_disc() {
    let max = 512 * 60 * 82;
    assert_eq!(normalize_capacity(10, max, 20), (10, max, 20));
    assert_eq!(normalize_capacity(10, max + 1, 20), (5, (max + 1) / 2, 10));
    assert_eq!(normalize_capacity(400, 4 * max, 800), (100, max, 200));
    let (_, total, _) = normalize_capacity(0, u64::MAX, 0);
    assert!(total <= max);
}

#[test]
fn uploads_need_room_on_the_disc() {
    assert!(check_upload_capacity(0x10, 1000, 600, 600).is_ok());
    assert!(matches!(
        check_upload_capacity(0x10, 1000, 600, 1025),
        Err(DeviceError::InsufficientCapacity {
            needed_seconds: 3,
            left_seconds: 2
        })
    ));
    let max = 512 * 60 * 82;
    // Reported in LP2 frames: twice the real time, so half of what is left.
    assert!(check_upload_capacity(0x10, 2 * max, 2048, 1024).is_ok());
    assert!(check_upload_capacity(0x10, 2 * max, 2048, 1025).is_err());
    assert!(matches!(
        check_upload_capacity(0x40, 1000, 600, 1),
        Err(DeviceError::WriteProtected)
    ));
    assert!(matches!(
        check_upload_capacity(0x00, 1000, 600, 1),
        Err(DeviceError::NotWritable)
    ));
}

#[test]
fn failed_reads_are_reworded_per_operation() {
    let read = || DeviceError::ListContent("boom".to_string());
    assert!(matches!(map_rename_precondition_error(read()), DeviceError::RenameDisc(m) if m == "boom"));
    assert!(matches!(map_rename_track_precondition_error(read()), DeviceError::RenameTrack(m) if m == "boom"));
    assert!(matches!(map_delete_track_precondition_error(read()), DeviceError::DeleteTrack(m) if m == "boom"));
    assert!(matches!(map_erase_precondition_error(read()), DeviceError::EraseDisc(m) if m == "boom"));
    assert!(matches!(map_create_group_precondition_error(read()), DeviceError::CreateGroup(m) if m == "boom"));
    assert!(matches!(map_erase_precondition_error(DeviceError::WriteProtected), DeviceError::WriteProtected));
}

#[test]
fn readings_become_tracks_groups_and_discs() {
    assert_eq!(blank_to_none("  ".to_string()), None);
    assert_eq!(blank_to_none(" a ".to_string()), Some(" a ".to_string()));
    assert_eq!(protection_label(0x03), "protected");
    assert_eq!(protection_label(0x00), "unprotected");
    assert_eq!(protection_label(0x2a), "unknown(0x2a)");

    let t = track_from_readings(4, " ".to_string(), 1025, false, "LP2".to_string(), 0x00);
    assert_eq!(t.index, 4);
    assert_eq!(t.title, None);
    assert_eq!(t.duration_seconds, Some(3));
    assert_eq!(t.channels, Some(1));
    assert_eq!(t.codec.as_deref(), Some("LP2"));
    assert_eq!(t.protected.as_deref(), Some("unprotected"));

    let g = group_from_readings(2, Some("Side A".to_string()), Some("".to_string()), vec![t]);
    assert_eq!(g.index, 2);
    assert_eq!(g.title.as_deref(), Some("Side A"));
    assert_eq!(g.full_width_title, None);
    assert_eq!(g.tracks.len(), 1);

    let max = 512 * 60 * 82;
    let d = disc_from_readings(
        0x10,
        "Mix".to_string(),
        "".to_string(),
        2 * 512 * 60,
        2 * max,
        2 * (max - 512 * 60),
        1,
        vec![g],
    );
    assert!(d.writable);
    assert!(!d.write_protected);
    assert_eq!(d.used_seconds, Some(60));
    assert_eq!(d.total_seconds, Some(82 * 60));
    assert_eq!(d.left_seconds, Some(81 * 60));
    assert_eq!(d.track_count, 1);
    assert_eq!(d.groups.len(), 1);
}

// ---------------------------------------------------------------------------
// Listing
// ---------------------------------------------------------------------------

#[test]
fn formats_durations_and_bytes() {
    assert_eq!(format_duration(0), "0:00");
    assert_eq!(format_duration(65), "1:05");
    assert_eq!(format_duration(4921), "82:01");
    assert_eq!(format_hex_bytes(&[]), "");
    assert_eq!(format_hex_bytes(&[0x0a, 0xff, 0x00]), "0x0a 0xff 0x00");
    assert_eq!(empty_fallback("", "x"), "x");
    assert_eq!(empty_fallback("a", "x"), "a");
}

#[test]
fn lists_a_device_and_its_disc() {
    let snapshot = DeviceSnapshot {
        device_name: "Sony MZ-N710".to_string(),
        vendor_id: 0x054c,
        product_id: 0x0084,
        recording_parameters: Some(vec![0x01, 0xa0]),
        disc: Disc {
            title: "".to_string(),
            full_width_title: "".to_string(),
            writable: true,
            write_protected: false,
            used_seconds: Some(65),
            left_seconds: Some(4855),
            total_seconds: Some(4920),
            track_count: 2,
            groups: vec![
                Group {
                    index: -1,
                    title: None,
                    full_width_title: None,
                    tracks: vec![Track {
                        index: 1,
                        title: Some("Two".to_string()),
                        duration_seconds: None,
                        channels: Some(1),
                        codec: None,
                        protected: None,
                    }],
                },
                Group {
                    index: 0,
                    title: Some("".to_string()),
                    full_width_title: None,
                    tracks: vec![Track {
                        index: 0,
                        title: None,
                        duration_seconds: Some(65),
                        channels: Some(2),
                        codec: Some("SP".to_string()),
                        protected: Some("unprotected".to_string()),
                    }],
                },
            ],
        },
    };
    let lines = disc_human_lines(&snapshot);
    assert_eq!(
        lines,
        vec![
            "Device: Sony MZ-N710",
            "USB: 054c:0084",
            "Recording parameters: 0x01 0xa0",
            "Disc: Untitled Disc",
            "Tracks: 2",
            "Capacity: 1:05 used, 80:55 left, 82:00 total",
            "Write protection: off",
            "",
            "  2. --:--    unknown  mono     Two",
            "[Group 0] Untitled Group",
            "  1. 1:05     SP       stereo   Untitled Track",
        ]
    );
}

#[test]
fn listing_omits_unknown_capacity_and_protection() {
    let snapshot = DeviceSnapshot {
        device_name: "".to_string(),
        vendor_id: 1,
        product_id: 0xabcd,
        recording_parameters: None,
        disc: Disc {
            title: "Tape".to_string(),
            full_width_title: "".to_string(),
            writable: false,
            write_protected: false,
            used_seconds: Some(1),
            left_seconds: None,
            total_seconds: Some(2),
            track_count: 0,
            groups: Vec::new(),
        },
    };
    assert_eq!(
        disc_human_lines(&snapshot),
        vec![
            "Device: Unknown NetMD device",
            "USB: 0001:abcd",
            "Disc: Tape",
            "Tracks: 0",
            "",
        ]
    );
}

#[test]
fn lists_devices_by_number_name_and_ids() {
    let listing = |index: usize, manufacturer: Option<&str>, product: Option<&str>| DeviceListing {
        index,
        vendor_id: 0x054c,
        product_id: 0x00c6,
        manufacturer: manufacturer.map(str::to_string),
        product: product.map(str::to_string),
        serial_number: None,
        usb_bus: Some(1),
        usb_address: Some(4),
        sysfs_path: None,
    };
    assert_eq!(
        devices_human_lines(&vec![
            listing(1, Some("Sony"), Some("MZ-N10")),
            listing(2, Some("Sony"), None),
            listing(10, None, None),
        ]),
        vec![
            "1. MZ-N10 (054c:00c6)",
            "2. Sony (054c:00c6)",
            "10. NetMD device (054c:00c6)",
        ]
    );
    assert_eq!(
        devices_human_lines(&Vec::new()),
        vec!["No supported NetMD devices found."]
    );
}

#[test]
fn doctor_names_the_rules_file() {
    let lines = doctor_lines();
    assert_eq!(lines.len(), 13);
    assert_eq!(lines[0], "Linux USB diagnostics");
    assert_eq!(
        lines[3],
        format!("Install udev rules derived from `{NETMD_RULES_PATH}` as:")
    );
    assert_eq!(lines[12], "This first CLI only supports Linux USB NetMD devices.");
}

// ---------------------------------------------------------------------------
// Group titles
// ---------------------------------------------------------------------------

#[test]
fn converts_ranges_and_sanitizes_titles() {
    assert_eq!(half_width_range_to_full_width("10-12"), "１０－１２");
    assert_eq!(half_width_range_to_full_width("7"), "７");
    assert_eq!(sanitize_half_width_component("a//b"), "a /b");
    assert_eq!(sanitize_half_width_component("a/b"), "a/b");
    assert_eq!(sanitize_full_width_component("x／／y"), "x／y");
}

#[test]
fn existing_groups_are_ordered_by_their_first_track() {
    let disc = disc_with(
        6,
        vec![
            Group {
                index: 0,
                title: Some("Late".to_string()),
                full_width_title: None,
                tracks: vec![track(5), track(4)],
            },
            Group {
                index: 1,
                title: None,
                full_width_title: None,
                tracks: vec![track(2)],
            },
            Group {
                index: 2,
                title: Some("Early//Mix".to_string()),
                full_width_title: Some("早".to_string()),
                tracks: vec![track(0)],
            },
        ],
    );
    let (half, full) = compile_group_titles(&disc, 1, 2, "New");
    assert_eq!(half, "1;Early /Mix//5-6;Late//2-3;New//");
    assert_eq!(full, "１；早／／５－６；／／２－３；／／");
}

#[test]
fn plans_group_titles_or_refuses_the_range() {
    let disc = disc_with(3, vec![]);
    let (half, full) = plan_group_titles(&disc, 0, 3, "All").unwrap();
    assert_eq!(half, "1-3;All//");
    assert_eq!(full, "１－３；／／");
    assert!(matches!(
        plan_group_titles(&disc, 1, 3, "Too far"),
        Err(DeviceError::TrackNumberOutOfRange {
            track_number: 4,
            track_count: 3
        })
    ));
    assert!(group_plan_computable(&disc, 65_000, 1000));
    match plan_group_titles(&disc, 65_000, 1000, "x") {
        Err(DeviceError::CreateGroup(m)) => {
            assert_eq!(m, "track range exceeds supported track numbers")
        }
        other => panic!("unexpected {other:?}"),
    }
    assert!(group_plan_computable(&disc, 0, 3));
}

#[test]
fn group_requests_need_a_writable_disc_and_tracks() {
    assert!(check_group_request(0x10, 2).is_ok());
    assert!(matches!(check_group_request(0x10, 0), Err(DeviceError::EmptyGroup)));
    assert!(matches!(check_group_request(0x00, 2), Err(DeviceError::NotWritable)));
    assert!(matches!(check_group_request(0x50, 2), Err(DeviceError::WriteProtected)));
}

// ---------------------------------------------------------------------------
// Playlists
// ---------------------------------------------------------------------------

#[test]
fn playlist_has_one_track_per_entry_in_order() {
    let playlist = parse_playlist(
        "#EXTM3U\r\n\r\n  a.flac  \r\n# a comment\r\n#EXTINF:5,\r\n/abs/b.wav\r\n#EXTINF:7,Title, with comma\r\nsub/c.mp3\r\n",
        "/base/",
    )
    .unwrap();
    assert_eq!(playlist.title, None);
    assert_eq!(
        playlist.tracks,
        vec![
            PlaylistTrack {
                path: "/base/a.flac".to_string(),
                title: None,
            },
            PlaylistTrack {
                path: "/abs/b.wav".to_string(),
                title: None,
            },
            PlaylistTrack {
                path: "/base/sub/c.mp3".to_string(),
                title: Some("Title, with comma".to_string()),
            },
        ]
    );
}

#[test]
fn playlist_title_prefers_the_playlist_tag() {
    let playlist = parse_playlist(
        "#EXTART:Artist\n#PLAYLIST:Named\n#EXTALB:Album\nx.wav\n",
        "",
    )
    .unwrap();
    assert_eq!(playlist.title.as_deref(), Some("Named"));
    assert_eq!(playlist.tracks[0].path, "x.wav");
    let only_album = parse_playlist("#EXTALB:Album\nx.wav\n", "d").unwrap();
    assert_eq!(only_album.title.as_deref(), Some("Album"));
    assert_eq!(only_album.tracks[0].path, "d/x.wav");
}

#[test]
fn playlist_without_entries_is_refused() {
    assert!(matches!(parse_playlist("", "/m"), Err(M3uError::NoTracks)));
    assert!(matches!(
        parse_playlist("#EXTINF:1,Lonely\n\n", "/m"),
        Err(M3uError::NoTracks)
    ));
}

// ---------------------------------------------------------------------------
// Encoder output
// ---------------------------------------------------------------------------

#[test]
fn lp_formats_go_through_atracdenc() {
    assert_eq!(conversion_route(RawUploadFormat::Sp), ConversionRoute::Pcm);
    assert_eq!(
        conversion_route(RawUploadFormat::Lp2),
        ConversionRoute::Atrac3 { bitrate: "128" }
    );
    assert_eq!(atracdenc_bitrate(RawUploadFormat::Lp105), "102");
    assert_eq!(atracdenc_bitrate(RawUploadFormat::Lp4), "64");
}

#[test]
fn strips_exactly_the_oma_header() {
    let mut data = vec![9u8; 96];
    data.push(42);
    assert_eq!(strip_oma_header(data).unwrap(), vec![42]);
    assert!(matches!(
        strip_oma_header(vec![1; 10]),
        Err(AudioError::AtracOutputTooShort(10))
    ));
    assert!(matches!(
        strip_oma_header(Vec::new()),
        Err(AudioError::AtracOutputTooShort(0))
    ));
}

#[test]
fn tool_errors_show_trimmed_output_or_status() {
    assert_eq!(command_error_detail("exit status: 1", b"  bad input \n"), "bad input");
    assert_eq!(command_error_detail("exit status: 1", b" \n\t"), "exit status: 1");
    assert_eq!(command_error_detail("s", &[0x66, 0xff, 0x67]), "f\u{fffd}g");
    let lines = vec!["".to_string(), "first".to_string(), "second ".to_string()];
    assert_eq!(command_error_detail_from_lines("s", &lines), "first\nsecond");
    assert_eq!(command_error_detail_from_lines("status", &Vec::new()), "status");
}

#[test]
fn error_detail_text_trims_or_falls_back() {
    assert_eq!(error_detail_text("exit status: 3", "\n  disk full \t\n"), "disk full");
    assert_eq!(error_detail_text("exit status: 3", "\u{3000} \n"), "exit status: 3");
    assert_eq!(error_detail_text("st", "a\nb"), "a\nb");
}

#[test]
fn tool_outcomes_become_errors() {
    assert!(finish_ffmpeg_to_wav(true, "ok", &Vec::new()).is_ok());
    assert!(matches!(
        finish_ffmpeg_to_wav(false, "exit status: 2", &Vec::new()),
        Err(AudioError::FfmpegFailed(d)) if d == "exit status: 2"
    ));
    assert_eq!(
        finish_ffmpeg_to_pcm(true, "ok", &Vec::new(), vec![1, 2]).unwrap(),
        vec![1, 2]
    );
    assert!(matches!(
        finish_ffmpeg_to_pcm(true, "ok", &Vec::new(), Vec::new()),
        Err(AudioError::EmptyOutput)
    ));
    assert!(matches!(
        finish_ffmpeg_to_pcm(false, "st", &vec!["oops".to_string()], vec![1]),
        Err(AudioError::FfmpegFailed(d)) if d == "oops"
    ));
    assert!(finish_atracdenc(true, "ok", b"").is_ok());
    assert!(matches!(
        finish_atracdenc(false, "st", b"no encoder\n"),
        Err(AudioError::AtracdencFailed(d)) if d == "no encoder"
    ));
}

#[test]
fn input_files_must_exist_and_be_files() {
    assert!(check_input_file(Ok(true), true, "a.wav".to_string()).is_ok());
    assert!(matches!(
        check_input_file(Ok(true), false, "dir".to_string()),
        Err(AudioError::NotAFile(p)) if p == "dir"
    ));
    assert!(matches!(
        check_input_file(Ok(false), false, "gone.wav".to_string()),
        Err(AudioError::InputNotFound(p)) if p == "gone.wav"
    ));
    assert!(matches!(
        check_input_file(Err(std::io::Error::other("denied")), true, "x".to_string()),
        Err(AudioError::InspectInput(_))
    ));
}

#[test]
fn timestamps_and_progress_edge_cases() {
    assert_eq!(parse_ffmpeg_timestamp_us("00:00:00"), Some(0));
    assert_eq!(parse_ffmpeg_timestamp_us("00:01:02.5"), Some(62_500_000));
    assert_eq!(parse_ffmpeg_timestamp_us("0:0:1.1234567"), Some(1_123_456));
    assert_eq!(parse_ffmpeg_timestamp_us("01:02"), None);
    assert_eq!(parse_ffmpeg_timestamp_us("a:00:01"), None);
    assert_eq!(parse_ffmpeg_timestamp_us("00:00:01.2.3"), None);
    assert_eq!(parse_ffmpeg_timestamp_us("N/A"), None);
    assert_eq!(percent_from_duration(5, 0), 0);
    assert_eq!(percent_from_duration(u64::MAX, 1), 99);
    assert_eq!(percent_from_duration(1, 3), 33);
    assert!(is_ffmpeg_progress_line("progress=continue"));
    assert!(is_ffmpeg_progress_line("out_time_ms=1"));
    assert!(!is_ffmpeg_progress_line("Stream #0:0: Audio"));
    assert!(!is_ffmpeg_progress_line("stream_0_1=3"));
    assert!(progress_line_time_fits("out_time=00:00:01.000000"));
    assert_eq!(parse_ffmpeg_progress_percent("out_time_ms=3000000", Some(4_000_000)), Some(75));
    assert_eq!(parse_ffmpeg_progress_percent("out_time_us=1", None), None);
    assert_eq!(parse_ffmpeg_progress_percent("out_time=N/A", Some(10)), None);
    assert_eq!(parse_ffmpeg_progress_percent("speed=1.0x", Some(10)), None);
}

#[test]
fn progress_tracker_reports_each_percentage_once() {
    let mut tracker = ProgressTracker::new(Some(10_000_000));
    assert_eq!(tracker.observe("out_time_us=0".to_string()), None);
    assert_eq!(tracker.observe("out_time_us=2500000".to_string()), Some(25));
    assert_eq!(tracker.observe("out_time_us=2500001".to_string()), None);
    assert_eq!(tracker.observe("progress=continue".to_string()), None);
    assert_eq!(tracker.observe("Input #0, wav".to_string()), None);
    assert_eq!(tracker.observe("   ".to_string()), None);
    assert_eq!(tracker.observe("out_time=00:00:05.000000".to_string()), Some(50));
    assert_eq!(tracker.observe("out_time_us=99000000".to_string()), Some(99));
    assert_eq!(tracker.observe("warning: late".to_string()), None);
    assert_eq!(tracker.into_lines(), vec!["Input #0, wav", "warning: late"]);

    let mut unknown = ProgressTracker::new(None);
    assert_eq!(unknown.observe("out_time_us=1".to_string()), None);
    assert!(unknown.into_lines().is_empty());
}

#[test]
fn progress_printer_overwrites_its_line() {
    let mut printer = EncodingProgressPrinter::new("Encoding".to_string());
    let first = printer.report(EncodingProgress {
        encoder: "ffmpeg",
        percent: None,
    });
    assert_eq!(first, "\rEncoding with ffmpeg: running");
    let second = printer.report(EncodingProgress {
        encoder: "ffmpeg",
        percent: Some(5),
    });
    assert_eq!(second, "\rEncoding with ffmpeg: 5%     ");
    let third = printer.report(EncodingProgress {
        encoder: "ffmpeg",
        percent: Some(50),
    });
    assert_eq!(third, "\rEncoding with ffmpeg: 50%");
    assert!(printer.finish());
    assert!(!printer.finish());
}

// ---------------------------------------------------------------------------
// Upload workflow
// ---------------------------------------------------------------------------

#[test]
fn track_numbers_are_one_based() {
    for n in [1u16, 2, 100, u16::MAX] {
        assert_eq!(track_number_to_index(n).unwrap() + 1, n);
    }
}

#[test]
fn fallback_titles_come_from_the_file_stem() {
    assert_eq!(fallback_title(b"/music/Song One.flac"), "Song One");
    assert_eq!(fallback_title(b"archive.tar.gz"), "archive.tar");
    assert_eq!(fallback_title(b".bashrc"), ".bashrc");
    assert_eq!(fallback_title(b"dir/name"), "name");
    assert_eq!(fallback_title(b"a/b/."), "b");
    assert_eq!(fallback_title(b"a/b//"), "b");
    assert_eq!(fallback_title(b"/a/.."), "Untitled Track");
    assert_eq!(fallback_title(b"/"), "Untitled Track");
    assert_eq!(fallback_title(b""), "Untitled Track");
    assert_eq!(fallback_title(b"  .wav"), "Untitled Track");
    assert_eq!(fallback_title(b"bad\xff.wav"), "Untitled Track");
    assert_eq!(fallback_title("Café.mp3".as_bytes()), "Café");
}

#[test]
fn lp105_hint_follows_a_rejected_lp2_reservation() {
    let message = "send track failed: the device rejected the message (status 94, 02, 00)";
    assert!(upload_failure_hint(RawUploadFormat::Lp2, message).is_some());
    assert_eq!(
        upload_failure_hint(RawUploadFormat::Lp2, message).unwrap(),
        "Hint: this deck rejected the normal LP2 reservation. Retry with `--format lp105`."
    );
    assert!(upload_failure_hint(RawUploadFormat::Sp, message).is_none());
    assert!(upload_failure_hint(RawUploadFormat::Lp2, "send track failed").is_none());
}

#[test]
fn summarizes_a_prepared_upload() {
    let prepared = UploadRequest {
        title: "t".to_string(),
        format: RawUploadFormat::Sp,
        data: vec![1; 2050],
    }
    .prepare()
    .unwrap();
    assert_eq!(
        upload_summary_lines(&prepared),
        vec![
            "Prepared SP upload: about 1s, 4096 bytes",
            "Padded final NetMD frame with 2046 bytes of silence",
        ]
    );
    let exact = UploadRequest {
        title: "t".to_string(),
        format: RawUploadFormat::Lp4,
        data: vec![1; 96],
    }
    .prepare()
    .unwrap();
    assert_eq!(
        upload_summary_lines(&exact),
        vec!["Prepared LP4 upload: about 1s, 96 bytes"]
    );
}

#[test]
fn playlist_upload_runs_its_steps_in_order() {
    let mut session = M3uSession::new(true, true, 2);
    assert_eq!(session.start(), M3uAction::EraseDisc);
    assert_eq!(session.advance(M3uEvent::Done), M3uAction::Upload { position: 0 });
    assert_eq!(
        session.advance(M3uEvent::Uploaded { track_index: 7 }),
        M3uAction::Upload { position: 1 }
    );
    assert_eq!(
        session.advance(M3uEvent::Uploaded { track_index: 8 }),
        M3uAction::CreateGroup {
            start_track_index: 7,
            track_count: 2
        }
    );
    assert_eq!(session.advance(M3uEvent::Done), M3uAction::ShowDisc);
    assert_eq!(session.advance(M3uEvent::Failed), M3uAction::Finish);
}

#[test]
fn playlist_upload_renames_the_disc_without_a_group() {
    let mut session = M3uSession::new(false, false, 1);
    assert_eq!(session.start(), M3uAction::RenameDisc);
    assert_eq!(session.advance(M3uEvent::Done), M3uAction::Upload { position: 0 });
    assert_eq!(
        session.advance(M3uEvent::Uploaded { track_index: 0 }),
        M3uAction::ShowDisc
    );
    assert_eq!(session.advance(M3uEvent::Done), M3uAction::Finish);
}

#[test]
fn playlist_upload_stops_at_a_failed_step() {
    let mut session = M3uSession::new(false, false, 3);
    assert_eq!(session.start(), M3uAction::RenameDisc);
    assert_eq!(session.advance(M3uEvent::Done), M3uAction::Upload { position: 0 });
    assert_eq!(
        session.advance(M3uEvent::Failed),
        M3uAction::Abort(M3uAbort::StepFailed)
    );
}

#[test]
fn playlist_upload_refuses_what_cannot_be_grouped() {
    let mut too_many = M3uSession::new(false, true, 70_000);
    assert_eq!(too_many.start(), M3uAction::Abort(M3uAbort::TooManyTracks));
    let mut empty = M3uSession::new(false, true, 0);
    assert_eq!(empty.start(), M3uAction::Abort(M3uAbort::NothingToGroup));
}
