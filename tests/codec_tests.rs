use web_nexus_state::codec::{deserialize_state, serialize_state};
use web_nexus_state::model::{
    BlogPost, GalleryVisibility, ImageDimensions, Photo, PostStatus, Role, Show, ShowStatus, Site,
    SiteStatus, Song, User, UserStatus, Video, VideoSource,
};
use web_nexus_state::state::{AppState, SyncError, SyncStatus};

fn full_state() -> AppState {
    let sites = vec![Site {
        id: "s1".to_string(),
        slug: "band".to_string(),
        name: "Band".to_string(),
        domain: Some("band.example".to_string()),
        description: None,
        owner_id: "u1".to_string(),
        member_ids: vec!["u1".to_string(), "u2".to_string()],
        theme: "dark".to_string(),
        config: "{\"color\":\"red\"}".to_string(),
        status: SiteStatus::Building,
        created_at: -5,
    }];
    let shows = vec![
        Show {
            id: "e1".to_string(),
            site_id: "s1".to_string(),
            title: "Première à Zürich ♫".to_string(),
            venue: "Halle".to_string(),
            address: Some("Hauptstrasse 1".to_string()),
            date: 1_800_000_000,
            start_time: "21:00".to_string(),
            ticket_url: None,
            description: Some(String::new()),
            status: ShowStatus::Cancelled,
            created_by: "u1".to_string(),
            created_at: i64::MIN,
            updated_at: i64::MAX,
        },
        Show {
            id: "e2".to_string(),
            site_id: "s1".to_string(),
            title: String::new(),
            venue: "Club".to_string(),
            address: None,
            date: 0,
            start_time: "20:00".to_string(),
            ticket_url: Some("https://tickets".to_string()),
            description: None,
            status: ShowStatus::Live,
            created_by: "u2".to_string(),
            created_at: 1,
            updated_at: 2,
        },
    ];
    let songs = vec![Song {
        id: "t1".to_string(),
        site_id: "s1".to_string(),
        title: "Track".to_string(),
        artist: None,
        genres: vec!["rock".to_string(), String::new()],
        duration_seconds: Some(-1),
        is_original: false,
        musical_key: Some("E minor".to_string()),
        notes: None,
        created_at: 3,
    }];
    let photos = vec![Photo {
        id: "p1".to_string(),
        site_id: "s1".to_string(),
        filename: "a.jpg".to_string(),
        url_full: "https://cdn/a.jpg".to_string(),
        url_thumb: "https://cdn/a_t.jpg".to_string(),
        size_bytes: 123_456,
        dimensions: ImageDimensions { width: i32::MAX, height: i32::MIN },
        alt_text: None,
        caption: Some("Live".to_string()),
        tags: vec![],
        uploaded_at: 9,
        uploaded_by: "u1".to_string(),
    }];
    let videos = vec![
        Video {
            id: "v1".to_string(),
            site_id: "s1".to_string(),
            title: "Clip".to_string(),
            description: None,
            source: VideoSource::YouTube { video_id: "abc".to_string() },
            thumbnail_url: None,
            duration_seconds: None,
            visibility: GalleryVisibility::Password { password: "pw".to_string() },
            view_count: 77,
            published_at: 8,
        },
        Video {
            id: "v2".to_string(),
            site_id: "s1".to_string(),
            title: "Embed".to_string(),
            description: Some("d".to_string()),
            source: VideoSource::External { embed_code: "<iframe/>".to_string() },
            thumbnail_url: Some("t".to_string()),
            duration_seconds: Some(30),
            visibility: GalleryVisibility::Hidden,
            view_count: 0,
            published_at: 1,
        },
    ];
    let posts = vec![BlogPost {
        id: "a1".to_string(),
        site_id: "s1".to_string(),
        title: "News".to_string(),
        slug: "news".to_string(),
        content: "# Hello".to_string(),
        excerpt: None,
        cover_image_id: Some("p1".to_string()),
        author_id: "u1".to_string(),
        status: PostStatus::Scheduled,
        published_at: None,
        created_at: 4,
        updated_at: 6,
    }];
    let users = vec![User {
        id: "u1".to_string(),
        email: "a@example.com".to_string(),
        name: "A".to_string(),
        roles: vec![
            Role::Admin,
            Role::SiteEditor { site_id: "s1".to_string() },
            Role::ReadOnly,
        ],
        status: UserStatus::Suspended,
        created_at: 0,
        last_login: None,
    }];
    AppState::from_parts(
        sites,
        shows,
        songs,
        photos,
        videos,
        posts,
        users,
        SyncStatus::Failed("timeout".to_string()),
        Some(1234),
        99,
    )
    .unwrap()
}

#[test]
fn round_trip_every_kind() {
    let r = full_state();
    let bytes = serialize_state(&r).unwrap();
    let back = deserialize_state(&bytes).unwrap();
    assert_eq!(back, r);
    assert_eq!(back.clock(), 99);
    assert_eq!(back.sync_status(), &SyncStatus::Failed("timeout".to_string()));
    assert_eq!(back.shows().get("e1").unwrap().title, "Première à Zürich ♫");
}

#[test]
fn round_trip_empty_replica() {
    let r = AppState::new();
    let bytes = serialize_state(&r).unwrap();
    assert_eq!(deserialize_state(&bytes).unwrap(), r);
}

#[test]
fn round_trip_after_mutations_and_merge() {
    let mut r = full_state();
    r.delete_show("e2").unwrap();
    r.merge_at(full_state(), 5);
    r.add_song(Song {
        id: "t2".to_string(),
        site_id: "s2".to_string(),
        title: "New".to_string(),
        artist: Some("Someone".to_string()),
        genres: vec!["pop".to_string()],
        duration_seconds: Some(180),
        is_original: true,
        musical_key: None,
        notes: Some("n".to_string()),
        created_at: 10,
    })
    .unwrap();
    let bytes = serialize_state(&r).unwrap();
    assert_eq!(deserialize_state(&bytes).unwrap(), r);
}

#[test]
fn malformed_bytes_are_a_serialization_error() {
    assert!(matches!(deserialize_state(&[]), Err(SyncError::Serialization(_))));
    assert!(matches!(deserialize_state(&[9, 9, 9]), Err(SyncError::Serialization(_))));
    let bytes = serialize_state(&full_state()).unwrap();
    let truncated = &bytes[..bytes.len() - 1];
    assert!(matches!(deserialize_state(truncated), Err(SyncError::Serialization(_))));
    let mut extended = bytes.clone();
    extended.push(3);
    assert!(matches!(deserialize_state(&extended), Err(SyncError::Serialization(_))));
}

#[test]
fn invalid_utf8_is_a_serialization_error() {
    let r = AppState::from_parts(
        vec![],
        vec![],
        vec![],
        vec![],
        vec![],
        vec![],
        vec![],
        SyncStatus::Failed("x".to_string()),
        None,
        0,
    )
    .unwrap();
    let mut bytes = serialize_state(&r).unwrap();
    let pos = bytes.iter().position(|b| *b == b'x').unwrap();
    bytes[pos] = 0xff;
    assert!(matches!(deserialize_state(&bytes), Err(SyncError::Serialization(_))));
}

fn one_show(id: &str) -> Show {
    Show {
        id: id.to_string(),
        site_id: "s".to_string(),
        title: "T".to_string(),
        venue: "V".to_string(),
        address: None,
        date: 0,
        start_time: "20:00".to_string(),
        ticket_url: None,
        description: None,
        status: ShowStatus::Upcoming,
        created_by: "u".to_string(),
        created_at: 0,
        updated_at: 0,
    }
}

fn with_shows(shows: Vec<Show>) -> AppState {
    AppState::from_parts(
        vec![],
        shows,
        vec![],
        vec![],
        vec![],
        vec![],
        vec![],
        SyncStatus::Synced,
        None,
        0,
    )
    .unwrap()
}

#[test]
fn shared_identifier_in_bytes_is_a_merge_conflict() {
    let a = serialize_state(&with_shows(vec![one_show("a")])).unwrap();
    let ab = serialize_state(&with_shows(vec![one_show("a"), one_show("b")])).unwrap();
    // The two encodings differ only in the show list; splice a second copy of "a" in place of "b".
    let prefix_len = a.iter().zip(ab.iter()).take_while(|(x, y)| x == y).count();
    let show_a_start = prefix_len + 8;
    let show_len = ab.len() - a.len();
    let mut dup = ab.clone();
    let a_bytes = ab[show_a_start..show_a_start + show_len].to_vec();
    dup.splice(show_a_start + show_len..show_a_start + 2 * show_len, a_bytes);
    assert!(matches!(deserialize_state(&dup), Err(SyncError::MergeConflict(_))));
}
