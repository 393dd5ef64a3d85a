use mini_disco::audio::{
    is_ffmpeg_progress_line, parse_ffmpeg_progress_percent, parse_ffmpeg_timestamp_us,
    percent_from_duration, strip_oma_header,
};
use mini_disco::device::{
    audio_frames_to_md_time_frames, audio_frames_to_seconds, md_time_frames_to_seconds,
    DeviceError, Disc, Group, RawUploadFormat, Track, UploadDataError, UploadRequest,
};
use mini_disco::m3u::{parse_playlist, PlaylistTrack};
use mini_disco::netmd::select_device_index;
use mini_disco::titles::{compile_group_titles, group_range};
use mini_disco::workflow::track_number_to_index;

#[test]
fn converts_display_track_number_to_netmd_index() {
    assert_eq!(track_number_to_index(1).unwrap(), 0);
    assert_eq!(track_number_to_index(42).unwrap(), 41);
}

#[test]
fn rejects_zero_track_number() {
    assert!(matches!(
        track_number_to_index(0).unwrap_err(),
        DeviceError::TrackNumberZero
    ));
}

#[test]
fn strips_oma_header() {
    let mut data = vec![0; 96];
    data.extend_from_slice(&[1, 2, 3]);

    assert_eq!(strip_oma_header(data).unwrap(), vec![1, 2, 3]);
}

#[test]
fn rejects_short_oma_output() {
    assert!(strip_oma_header(vec![0; 96]).is_err());
}

#[test]
fn parses_ffmpeg_timestamp_as_microseconds() {
    assert_eq!(
        parse_ffmpeg_timestamp_us("01:02:03.4567"),
        Some(3_723_456_700)
    );
}

#[test]
fn caps_progress_below_complete_until_process_succeeds() {
    assert_eq!(percent_from_duration(50, 100), 50);
    assert_eq!(percent_from_duration(100, 100), 99);
    assert_eq!(percent_from_duration(150, 100), 99);
}

#[test]
fn parses_ffmpeg_out_time_progress_line() {
    assert_eq!(
        parse_ffmpeg_progress_percent("out_time_us=2500000", Some(10_000_000)),
        Some(25)
    );
    assert_eq!(
        parse_ffmpeg_progress_percent("out_time=00:00:05.000000", Some(10_000_000)),
        Some(50)
    );
}

#[test]
fn recognizes_ffmpeg_stream_quality_progress_lines() {
    assert!(is_ffmpeg_progress_line("stream_0_1_q=-0.0"));
}

#[test]
fn pads_upload_data_to_frame_size() {
    let prepared = UploadRequest {
        title: "tone".to_string(),
        format: RawUploadFormat::Sp,
        data: vec![1; 2050],
    }
    .prepare()
    .unwrap();

    assert_eq!(prepared.data.len(), 4096);
    assert_eq!(prepared.padded_bytes, 2046);
    assert_eq!(prepared.frame_count, 2);
}

#[test]
fn rejects_empty_upload_data() {
    let error = UploadRequest {
        title: "tone".to_string(),
        format: RawUploadFormat::Lp2,
        data: Vec::new(),
    }
    .prepare()
    .unwrap_err();

    assert!(matches!(error, UploadDataError::Empty));
}

#[test]
fn lp105_uses_152_byte_frames() {
    let prepared = UploadRequest {
        title: "tone".to_string(),
        format: RawUploadFormat::Lp105,
        data: vec![1; 153],
    }
    .prepare()
    .unwrap();

    assert_eq!(prepared.data.len(), 304);
    assert_eq!(prepared.padded_bytes, 151);
    assert_eq!(prepared.frame_count, 2);
}

#[test]
fn upload_audio_frames_convert_to_md_capacity_frames() {
    assert_eq!(audio_frames_to_seconds(13_702), 160);
    assert_eq!(audio_frames_to_md_time_frames(13_702), 81_449);
    assert_eq!(md_time_frames_to_seconds(81_449), 160);
}

#[test]
fn parses_playlist_title_and_track_titles() {
    let playlist = parse_playlist(
        "#EXTM3U\n#PLAYLIST:Artist - Title\n#EXTINF:123,Artist - One\none.flac\n#EXTINF:-1,Two\nmusic/two.mp3\n",
        "/music",
    )
    .unwrap();

    assert_eq!(playlist.title.as_deref(), Some("Artist - Title"));
    assert_eq!(
        playlist.tracks,
        vec![
            PlaylistTrack {
                path: "/music/one.flac".to_string(),
                title: Some("Artist - One".to_string()),
            },
            PlaylistTrack {
                path: "/music/music/two.mp3".to_string(),
                title: Some("Two".to_string()),
            },
        ]
    );
}

#[test]
fn derives_playlist_title_from_artist_and_album_tags() {
    let playlist = parse_playlist(
        "#EXTM3U\n#EXTART:Artist\n#EXTALB:Title\ntrack.wav\n",
        "/music",
    )
    .unwrap();

    assert_eq!(playlist.title.as_deref(), Some("Artist - Title"));
}

#[test]
fn rejects_playlist_without_tracks() {
    assert!(parse_playlist("#EXTM3U\n#PLAYLIST:Empty\n", "/music").is_err());
}

#[test]
fn selects_only_device_without_an_explicit_index() {
    assert_eq!(select_device_index(None, 1).unwrap(), 0);
}

#[test]
fn requires_explicit_index_when_multiple_devices_match() {
    assert!(matches!(
        select_device_index(None, 2).unwrap_err(),
        DeviceError::MultipleDevices { count: 2 }
    ));
}

#[test]
fn converts_display_device_number_to_zero_based_index() {
    assert_eq!(select_device_index(Some(1), 2).unwrap(), 0);
    assert_eq!(select_device_index(Some(2), 2).unwrap(), 1);
}

#[test]
fn rejects_invalid_device_number() {
    assert!(matches!(
        select_device_index(Some(0), 2).unwrap_err(),
        DeviceError::DeviceIndexZero
    ));
    assert!(matches!(
        select_device_index(Some(3), 2).unwrap_err(),
        DeviceError::DeviceIndexOutOfRange {
            requested: 3,
            count: 2
        }
    ));
}

#[test]
fn group_range_uses_single_track_without_dash() {
    assert_eq!(group_range(0, 1), "1");
    assert_eq!(group_range(2, 3), "3-5");
}

#[test]
fn compile_group_titles_preserves_disc_title_and_existing_groups() {
    let disc = Disc {
        title: "Existing Disc".to_string(),
        full_width_title: "Existing Full".to_string(),
        writable: true,
        write_protected: false,
        used_seconds: None,
        left_seconds: None,
        total_seconds: None,
        track_count: 5,
        groups: vec![
            Group {
                index: 0,
                title: None,
                full_width_title: None,
                tracks: vec![track(2), track(3), track(4)],
            },
            Group {
                index: 1,
                title: Some("Old Group".to_string()),
                full_width_title: Some("Old Full".to_string()),
                tracks: vec![track(0), track(1)],
            },
        ],
    };

    let (half_width, full_width) = compile_group_titles(&disc, 2, 3, "New Group");

    assert_eq!(
        half_width,
        "0;Existing Disc//1-2;Old Group//3-5;New Group//"
    );
    assert_eq!(
        full_width,
        "０；Existing Full／／１－２；Old Full／／３－５；／／"
    );
}

fn track(index: u16) -> Track {
    Track {
        index,
        title: None,
        duration_seconds: None,
        channels: None,
        codec: None,
        protected: None,
    }
}
