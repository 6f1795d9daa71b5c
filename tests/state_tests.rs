use web_nexus_state::model::{
    BlogPost, ImageDimensions, Photo, PostStatus, Role, Show, ShowStatus, Site, SiteStatus, Song,
    User, UserStatus,
};
use web_nexus_state::state::{AppState, SyncStatus};

fn show(id: &str, site: &str, title: &str, venue: &str, updated_at: i64) -> Show {
    Show {
        id: id.to_string(),
        site_id: site.to_string(),
        title: title.to_string(),
        venue: venue.to_string(),
        address: None,
        date: 1_700_000_000,
        start_time: "21:00".to_string(),
        ticket_url: None,
        description: None,
        status: ShowStatus::Upcoming,
        created_by: "user-1".to_string(),
        created_at: 100,
        updated_at,
    }
}

fn song(id: &str, site: &str, title: &str) -> Song {
    Song {
        id: id.to_string(),
        site_id: site.to_string(),
        title: title.to_string(),
        artist: None,
        genres: vec![],
        duration_seconds: None,
        is_original: true,
        musical_key: None,
        notes: None,
        created_at: 0,
    }
}

fn post(id: &str, title: &str, updated_at: i64) -> BlogPost {
    BlogPost {
        id: id.to_string(),
        site_id: "s1".to_string(),
        title: title.to_string(),
        slug: id.to_string(),
        content: String::new(),
        excerpt: None,
        cover_image_id: None,
        author_id: "user-1".to_string(),
        status: PostStatus::Draft,
        published_at: None,
        created_at: 0,
        updated_at,
    }
}

fn site(id: &str, name: &str, created_at: i64) -> Site {
    Site {
        id: id.to_string(),
        slug: id.to_string(),
        name: name.to_string(),
        domain: None,
        description: None,
        owner_id: "user-1".to_string(),
        member_ids: vec![],
        theme: "dark".to_string(),
        config: "{}".to_string(),
        status: SiteStatus::Active,
        created_at,
    }
}

fn with_sites(sites: Vec<Site>, users: Vec<User>, clock: u64) -> AppState {
    AppState::from_parts(
        sites,
        vec![],
        vec![],
        vec![],
        vec![],
        vec![],
        users,
        SyncStatus::Synced,
        None,
        clock,
    )
    .unwrap()
}

#[test]
fn test_state_creation() {
    let state = AppState::new();
    assert!(matches!(state.sync_status(), SyncStatus::Synced));
    assert_eq!(state.clock(), 0);
}

#[test]
fn test_add_show() {
    let mut state = AppState::new();
    let show = Show {
        id: "show-1".to_string(),
        site_id: "site-1".to_string(),
        title: "Test Show".to_string(),
        venue: "Test Venue".to_string(),
        address: None,
        date: chrono::Utc::now().timestamp() + 86400,
        start_time: "21:00".to_string(),
        ticket_url: None,
        description: None,
        status: ShowStatus::Upcoming,
        created_by: "user-1".to_string(),
        created_at: chrono::Utc::now().timestamp(),
        updated_at: chrono::Utc::now().timestamp(),
    };

    state.add_show(show).unwrap();
    assert!(state.needs_sync());
    assert_eq!(state.clock(), 1);

    let shows = state.get_site_shows("site-1");
    assert_eq!(shows.len(), 1);
    assert_eq!(shows[0].title, "Test Show");
}

#[test]
fn test_state_merge() {
    let mut state1 = AppState::new();
    let mut state2 = AppState::new();

    let show1 = Show {
        id: "show-1".to_string(),
        site_id: "site-1".to_string(),
        title: "Show from State 1".to_string(),
        venue: "Venue 1".to_string(),
        address: None,
        date: chrono::Utc::now().timestamp() + 86400,
        start_time: "21:00".to_string(),
        ticket_url: None,
        description: None,
        status: ShowStatus::Upcoming,
        created_by: "user-1".to_string(),
        created_at: chrono::Utc::now().timestamp(),
        updated_at: 1000,
    };

    let show2 = Show {
        id: "show-2".to_string(),
        site_id: "site-1".to_string(),
        title: "Show from State 2".to_string(),
        venue: "Venue 2".to_string(),
        address: None,
        date: chrono::Utc::now().timestamp() + 86400,
        start_time: "21:00".to_string(),
        ticket_url: None,
        description: None,
        status: ShowStatus::Upcoming,
        created_by: "user-2".to_string(),
        created_at: chrono::Utc::now().timestamp(),
        updated_at: 2000,
    };

    state1.add_show(show1).unwrap();
    state2.add_show(show2).unwrap();

    state1.merge(state2);

    let shows = state1.get_site_shows("site-1");
    assert_eq!(shows.len(), 2);
}

#[test]
fn scenario_add_then_merge() {
    let mut r = AppState::new();
    r.add_show(show("e1", "s1", "Opening", "Hall A", 5)).unwrap();
    assert_eq!(r.clock(), 1);
    assert_eq!(r.sync_status(), &SyncStatus::Pending);
    let listed = r.get_site_shows("s1");
    assert_eq!(listed.len(), 1);
    assert_eq!(listed[0].id, "e1");

    let mut foreign = AppState::new();
    foreign.add_show(show("e1", "s1", "Opening", "Hall B", 10)).unwrap();
    foreign.add_show(show("e2", "s1", "Second", "Club", 3)).unwrap();
    assert_eq!(foreign.clock(), 2);

    r.merge_at(foreign, 42);
    assert_eq!(r.shows().len(), 2);
    assert_eq!(r.shows().get("e1").unwrap(), &show("e1", "s1", "Opening", "Hall B", 10));
    assert!(r.shows().contains_key("e2"));
    assert_eq!(r.sync_status(), &SyncStatus::Synced);
    assert_eq!(r.clock(), 2);
    assert_eq!(r.last_sync(), Some(42));
}

#[test]
fn lww_tie_keeps_local() {
    let mut r = AppState::new();
    r.add_show(show("e", "s1", "Local", "Here", 1000)).unwrap();
    let mut f = AppState::new();
    f.add_show(show("e", "s1", "Foreign", "There", 1000)).unwrap();
    r.merge_at(f, 7);
    assert_eq!(r.shows().get("e").unwrap().title, "Local");
    assert_eq!(r.shows().len(), 1);
}

#[test]
fn lww_older_foreign_loses() {
    let mut r = AppState::new();
    r.add_post(post("p", "Local", 50)).unwrap();
    let mut f = AppState::new();
    f.add_post(post("p", "Foreign", 49)).unwrap();
    f.add_post(post("q", "Only foreign", 1)).unwrap();
    r.merge_at(f, 7);
    assert_eq!(r.posts().get("p").unwrap().title, "Local");
    assert_eq!(r.posts().get("q").unwrap().title, "Only foreign");
}

#[test]
fn sites_merge_on_creation_time() {
    let mut r = with_sites(vec![site("a", "Local A", 10), site("b", "Local B", 10)], vec![], 4);
    let f = with_sites(vec![site("a", "Foreign A", 11), site("b", "Foreign B", 10)], vec![], 2);
    r.merge_at(f, 1);
    assert_eq!(r.sites().get("a").unwrap().name, "Foreign A");
    assert_eq!(r.sites().get("b").unwrap().name, "Local B");
    assert_eq!(r.clock(), 4);
}

#[test]
fn untimestamped_foreign_overwrites() {
    let mut r = AppState::new();
    r.add_song(song("t1", "s1", "A")).unwrap();
    r.add_song(song("t2", "s1", "Kept")).unwrap();
    let mut f = AppState::new();
    f.add_song(song("t1", "s1", "B")).unwrap();
    r.merge_at(f, 0);
    assert_eq!(r.songs().get("t1").unwrap().title, "B");
    assert_eq!(r.songs().get("t2").unwrap().title, "Kept");
    assert_eq!(r.songs().len(), 2);
}

#[test]
fn users_foreign_overwrites() {
    let local = User {
        id: "u".to_string(),
        email: "old@example.com".to_string(),
        name: "Old".to_string(),
        roles: vec![Role::Admin],
        status: UserStatus::Active,
        created_at: 5,
        last_login: Some(6),
    };
    let mut foreign = local.clone();
    foreign.name = "New".to_string();
    foreign.created_at = 1;
    let mut r = with_sites(vec![], vec![local], 0);
    r.merge_at(with_sites(vec![], vec![foreign.clone()], 0), 0);
    assert_eq!(r.users().get("u").unwrap(), &foreign);
}

#[test]
fn merge_twice_is_merge_once() {
    let mut base = AppState::new();
    base.add_show(show("a", "s1", "A", "V", 5)).unwrap();
    base.add_song(song("t", "s1", "Local")).unwrap();
    let mut snap = AppState::new();
    snap.add_show(show("a", "s1", "A2", "V2", 9)).unwrap();
    snap.add_show(show("b", "s1", "B", "V", 1)).unwrap();
    snap.add_song(song("t", "s1", "Foreign")).unwrap();

    let mut once = base.clone();
    once.merge_at(snap.clone(), 100);
    let mut twice = once.clone();
    twice.merge_at(snap, 100);
    assert_eq!(once.shows().len(), twice.shows().len());
    for id in ["a", "b"] {
        assert_eq!(once.shows().get(id), twice.shows().get(id));
    }
    assert_eq!(once.songs().get("t"), twice.songs().get("t"));
    assert_eq!(once.clock(), twice.clock());
    assert_eq!(once.sync_status(), twice.sync_status());
    assert_eq!(once.last_sync(), twice.last_sync());
}

#[test]
fn timestamped_merge_order_does_not_matter() {
    let mut base = AppState::new();
    base.add_show(show("a", "s1", "Base", "V", 5)).unwrap();
    let mut s1 = AppState::new();
    s1.add_show(show("a", "s1", "One", "V", 7)).unwrap();
    s1.add_show(show("b", "s1", "One", "V", 1)).unwrap();
    let mut s2 = AppState::new();
    s2.add_show(show("a", "s1", "Two", "V", 8)).unwrap();
    s2.add_show(show("b", "s1", "Two", "V", 2)).unwrap();

    let mut x = base.clone();
    x.merge_at(s1.clone(), 1);
    x.merge_at(s2.clone(), 2);
    let mut y = base;
    y.merge_at(s2, 2);
    y.merge_at(s1, 1);
    for id in ["a", "b"] {
        assert_eq!(x.shows().get(id), y.shows().get(id));
    }
    assert_eq!(x.shows().get("a").unwrap().title, "Two");
    assert_eq!(x.clock(), y.clock());
}

#[test]
fn clock_never_decreases() {
    let mut r = AppState::new();
    let mut last = r.clock();
    r.add_show(show("a", "s1", "A", "V", 1)).unwrap();
    assert!(r.clock() >= last);
    last = r.clock();
    r.delete_show("a").unwrap();
    assert!(r.clock() >= last);
    last = r.clock();
    r.mark_syncing();
    assert!(r.clock() >= last);
    last = r.clock();
    r.merge_at(AppState::new(), 3);
    assert!(r.clock() >= last);
    assert_eq!(r.clock(), 2);
    let big = with_sites(vec![], vec![], 10);
    r.merge_at(big, 4);
    assert_eq!(r.clock(), 10);
}

#[test]
fn every_mutation_marks_pending() {
    let mut r = AppState::new();
    r.add_song(song("t", "s1", "A")).unwrap();
    assert_eq!(r.sync_status(), &SyncStatus::Pending);
    r.mark_syncing();
    assert_eq!(r.sync_status(), &SyncStatus::Syncing);
    r.update_song(song("t", "s1", "B")).unwrap();
    assert_eq!(r.sync_status(), &SyncStatus::Pending);
    r.mark_syncing();
    r.mark_failed("timeout".to_string());
    assert_eq!(r.sync_status(), &SyncStatus::Failed("timeout".to_string()));
    r.add_photo(Photo {
        id: "p".to_string(),
        site_id: "s1".to_string(),
        filename: "a.jpg".to_string(),
        url_full: "https://cdn/a.jpg".to_string(),
        url_thumb: "https://cdn/a_t.jpg".to_string(),
        size_bytes: 10,
        dimensions: ImageDimensions { width: 4, height: 3 },
        alt_text: None,
        caption: None,
        tags: vec![],
        uploaded_at: 0,
        uploaded_by: "u".to_string(),
    })
    .unwrap();
    assert_eq!(r.sync_status(), &SyncStatus::Pending);
    r.merge_at(AppState::new(), 0);
    assert_eq!(r.sync_status(), &SyncStatus::Synced);
    r.delete_show("missing").unwrap();
    assert_eq!(r.sync_status(), &SyncStatus::Pending);
    r.update_show(show("x", "s1", "X", "V", 1)).unwrap();
    r.add_post(post("q", "Q", 1)).unwrap();
    assert_eq!(r.sync_status(), &SyncStatus::Pending);
    assert_eq!(r.clock(), 6);
}

#[test]
fn delete_of_absent_show_is_a_no_op() {
    let mut r = AppState::new();
    r.add_show(show("a", "s1", "A", "V", 1)).unwrap();
    r.delete_show("zzz").unwrap();
    assert_eq!(r.shows().len(), 1);
    r.delete_show("a").unwrap();
    assert_eq!(r.shows().len(), 0);
    assert!(r.shows().get("a").is_none());
    assert_eq!(r.clock(), 3);
}

#[test]
fn update_replaces_whole_record() {
    let mut r = AppState::new();
    r.add_show(show("a", "s1", "A", "V", 1)).unwrap();
    r.update_show(show("a", "s2", "A2", "W", 2)).unwrap();
    assert_eq!(r.shows().len(), 1);
    assert_eq!(r.get_site_shows("s1").len(), 0);
    assert_eq!(r.get_site_shows("s2")[0].venue, "W");
}

#[test]
fn sync_status_machine() {
    let mut r = AppState::new();
    r.mark_syncing();
    assert_eq!(r.sync_status(), &SyncStatus::Synced);
    r.mark_failed("nothing in flight".to_string());
    assert_eq!(r.sync_status(), &SyncStatus::Synced);
    r.add_song(song("t", "s1", "A")).unwrap();
    r.mark_failed("not started".to_string());
    assert_eq!(r.sync_status(), &SyncStatus::Pending);
    assert!(r.needs_sync());
    r.mark_syncing();
    assert!(!r.needs_sync());
    r.mark_failed("network".to_string());
    r.mark_syncing();
    assert_eq!(r.sync_status(), &SyncStatus::Syncing);
}

#[test]
fn merge_stamps_current_time() {
    let before = chrono::Utc::now().timestamp();
    let mut r = AppState::new();
    r.merge(AppState::new());
    let stamp = r.last_sync().unwrap();
    assert!(stamp >= before);
    assert_eq!(r.sync_status(), &SyncStatus::Synced);
}

#[test]
fn scoped_listings() {
    let mut r = AppState::new();
    r.add_song(song("t1", "s1", "A")).unwrap();
    r.add_song(song("t2", "s2", "B")).unwrap();
    r.add_song(song("t3", "s1", "C")).unwrap();
    let mut ids: Vec<String> = r.get_site_songs("s1").iter().map(|s| s.id.clone()).collect();
    ids.sort();
    assert_eq!(ids, vec!["t1".to_string(), "t3".to_string()]);
    assert!(r.get_site_photos("s1").is_empty());
    assert!(r.get_site_songs("nobody").is_empty());
}

#[test]
fn from_parts_rejects_shared_identifiers() {
    let r = AppState::from_parts(
        vec![],
        vec![show("a", "s1", "A", "V", 1), show("a", "s1", "B", "V", 2)],
        vec![],
        vec![],
        vec![],
        vec![],
        vec![],
        SyncStatus::Synced,
        None,
        0,
    );
    assert!(matches!(r, Err(web_nexus_state::state::SyncError::MergeConflict(_))));
}

#[test]
fn default_is_empty() {
    let r = AppState::default();
    assert_eq!(r.clock(), 0);
    assert_eq!(r.last_sync(), None);
    assert_eq!(r.shows().len(), 0);
}
