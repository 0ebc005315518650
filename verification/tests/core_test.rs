use sporlcli::albums::{tidy_weekly_releases, to_release_rows};
use sporlcli::artists::{
    filter_and_sort_artists, planned_new_artists, to_artist_rows, ArtistFetchPlan,
};
use sporlcli::bucket::prepare_remote_releases;
use sporlcli::date::{parse_ymd, Date};
use sporlcli::kinds::{parse_release_kinds, ReleaseKind, ReleaseKinds};
use sporlcli::playlist::{first_tracks, playlist_name_for, u64_to_string};
use sporlcli::state::{StateManager, STATE_TYPE_RELEASES};
use sporlcli::store::ArtistReleaseManager;
use sporlcli::sync::{rate_limit_wait, ReleaseSyncEngine, SyncStep};
use sporlcli::token::TokenManager;
use sporlcli::types::{
    Album, AlbumArtist, Artist, ArtistReleases, GetAlbumResponse, GetSeveralAlbumsResponse,
    Token, Track, Tracks,
};
use sporlcli::weeks::{build_week, get_custom_week_range, get_release_week_number, get_saturday_before_or_on};

fn ymd(y: i32, m: u8, d: u8) -> Date {
    Date::from_ymd_opt(y, m, d).unwrap()
}

fn album(id: &str, name: &str, date: &str, precision: &str, artist: &str) -> Album {
    Album {
        id: id.to_string(),
        name: name.to_string(),
        release_date: date.to_string(),
        release_date_precision: precision.to_string(),
        album_type: "album".to_string(),
        artists: vec![AlbumArtist { id: format!("{}_a", id), name: artist.to_string() }],
    }
}

fn artist(id: &str, name: &str) -> Artist {
    Artist { id: id.to_string(), name: name.to_string(), genres: vec![] }
}

#[test]
fn week_number_year_boundary() {
    // Jan 1 2023 is a Sunday; its week starts Saturday, Dec 31 2022, so the
    // week is numbered in 2022's scheme, whose Jan 1 was itself a Saturday.
    let d = ymd(2023, 1, 1);
    let ws = get_saturday_before_or_on(d);
    assert_eq!(ws, ymd(2022, 12, 31));
    assert_eq!(get_release_week_number(d), 53);
    // The built week carries the anchor year of its Saturday, not the
    // date's own calendar year.
    let week = build_week(d);
    assert_eq!(week.year, 2022);
    assert_eq!(week.week, 53);
    // Jan 1 2022 is a Saturday: numbering shifts by one, so it is week 1.
    assert_eq!(get_release_week_number(ymd(2022, 1, 1)), 1);
    assert_eq!(build_week(ymd(2022, 1, 1)).year, 2022);
}

#[test]
fn week_number_exact_values() {
    // Saturday June 10 2023 starts the week of June 15; first week start of
    // 2023 is Dec 31 2022, so 23 full weeks lie between.
    assert_eq!(get_release_week_number(ymd(2023, 6, 15)), 23);
    assert_eq!(get_release_week_number(ymd(2023, 6, 10)), 23);
    assert_eq!(get_release_week_number(ymd(2023, 6, 9)), 22);
}

#[test]
fn week_range_order_and_starts() {
    // A Tuesday: the in-progress week is skipped; entries run most recent
    // first, each starting on its Saturday.
    let weeks = get_custom_week_range(ymd(2023, 10, 17), 3);
    assert_eq!(weeks.len(), 4);
    assert!(weeks.iter().all(|w| w.year == 2023));
    assert_eq!(weeks[0].dates[0], ymd(2023, 10, 7));
    assert_eq!(weeks[1].dates[0], ymd(2023, 9, 30));
    assert_eq!(weeks[2].dates[0], ymd(2023, 9, 23));
    assert_eq!(weeks[3].dates[0], ymd(2023, 9, 16));
    for w in &weeks {
        assert_eq!(w.dates.len(), 7);
    }
}

#[test]
fn build_week_spans_month_end() {
    let week = build_week(ymd(2023, 10, 31));
    assert_eq!(week.dates[0], ymd(2023, 10, 28));
    assert_eq!(week.dates[6], ymd(2023, 11, 3));
    assert_eq!(week.year, 2023);
}

#[test]
fn week_range_across_new_year_keeps_anchor_years() {
    // From early January 2023, the prior weeks still belong to 2022's
    // numbering: each entry carries its own anchor year.
    let weeks = get_custom_week_range(ymd(2023, 1, 10), 2);
    assert_eq!(weeks.len(), 3);
    assert_eq!(weeks[0].dates[0], ymd(2022, 12, 31));
    assert_eq!(weeks[0].year, 2022);
    assert_eq!(weeks[0].week, 53);
    assert_eq!(weeks[1].dates[0], ymd(2022, 12, 24));
    assert_eq!(weeks[1].year, 2022);
    assert_eq!(weeks[2].year, 2022);
}

#[test]
fn parse_ymd_accepts_and_rejects() {
    assert_eq!(parse_ymd("2023-10-17"), Some(ymd(2023, 10, 17)));
    assert_eq!(parse_ymd("2024-02-29"), Some(ymd(2024, 2, 29)));
    assert_eq!(parse_ymd("2023-02-29"), None);
    assert_eq!(parse_ymd("2023-13-01"), None);
    assert_eq!(parse_ymd("2023-00-10"), None);
    assert_eq!(parse_ymd("2023-1-1"), None);
    assert_eq!(parse_ymd("not-a-date!"), None);
    assert_eq!(parse_ymd(""), None);
}

#[test]
fn dedup_keeps_first_of_id() {
    // Two albums with the same id but different titles: the first survives.
    let mut albums = vec![
        album("abc", "First Title", "2023-10-01", "day", "A"),
        album("abc", "Second Title", "2023-10-01", "day", "A"),
    ];
    sporlcli::albums::remove_duplicate_albums(&mut albums);
    assert_eq!(albums.len(), 1);
    assert_eq!(albums[0].name, "First Title");
}

#[test]
fn dedup_is_idempotent() {
    let make = || {
        vec![
            album("x", "X", "2023-10-01", "day", "A"),
            album("y", "Y", "2023-10-02", "day", "B"),
            album("x", "X again", "2023-10-01", "day", "A"),
        ]
    };
    let mut once = make();
    sporlcli::albums::remove_duplicate_albums(&mut once);
    let mut twice = make();
    sporlcli::albums::remove_duplicate_albums(&mut twice);
    sporlcli::albums::remove_duplicate_albums(&mut twice);
    let ids_once: Vec<&String> = once.iter().map(|a| &a.id).collect();
    let ids_twice: Vec<&String> = twice.iter().map(|a| &a.id).collect();
    assert_eq!(ids_once, ids_twice);
    assert_eq!(once.len(), twice.len());
}

#[test]
fn tidy_sorts_newest_first_with_artist_ties() {
    let mut albums = vec![
        album("1", "Old", "2023-09-01", "day", "zeta"),
        album("2", "New", "2023-10-01", "day", "Beta"),
        album("3", "New other", "2023-10-01", "day", "alpha"),
        album("2", "New duplicate", "2023-10-01", "day", "Beta"),
    ];
    tidy_weekly_releases(&mut albums);
    assert_eq!(albums.len(), 3);
    assert_eq!(albums[0].name, "New other"); // alpha before Beta, case folded
    assert_eq!(albums[1].name, "New");
    assert_eq!(albums[2].name, "Old");
}

#[test]
fn bucketing_splits_by_week_and_skips() {
    let items = vec![
        album("a", "A", "2023-10-02", "day", "A"), // week of Sep 30
        album("b", "B", "2023-10-09", "day", "B"), // week of Oct 7
        album("c", "C", "2023-10-03", "day", "C"), // week of Sep 30 again
        album("d", "D", "2023-10", "month", "D"),  // not day-precise: skipped
        album("e", "E", "bad-date!!", "day", "E"), // unparseable: skipped
    ];
    let buckets = prepare_remote_releases(items);
    assert_eq!(buckets.len(), 2);
    let total: usize = buckets.iter().map(|b| b.releases.len()).sum();
    assert_eq!(total, 3);
    let first = &buckets[0];
    assert_eq!(first.year, 2023);
    assert_eq!(first.week.year, 2023);
    assert_eq!(first.releases.len(), 2);
    assert_eq!(first.releases[0].id, "a");
    assert_eq!(first.releases[1].id, "c");
    assert_eq!(first.week.dates[0], ymd(2023, 9, 30));
    let second = &buckets[1];
    assert_eq!(second.releases.len(), 1);
    assert_eq!(second.releases[0].id, "b");
    assert_eq!(second.week.dates[0], ymd(2023, 10, 7));
}

#[test]
fn bucketing_keys_by_anchor_year() {
    // A release on Jan 1 2023 belongs to the week of Dec 31 2022: its
    // bucket is keyed week 53 of 2022, not week anything of 2023.
    let items = vec![
        album("ny", "New Year", "2023-01-01", "day", "A"),
        album("dec", "December", "2022-12-31", "day", "B"),
    ];
    let buckets = prepare_remote_releases(items);
    assert_eq!(buckets.len(), 1);
    assert_eq!(buckets[0].year, 2022);
    assert_eq!(buckets[0].week.week, 53);
    assert_eq!(buckets[0].week.year, 2022);
    assert_eq!(buckets[0].releases.len(), 2);
}

#[test]
fn store_replace_keeps_only_second_list() {
    let mut store = ArtistReleaseManager::new(None);
    store.add_artist(artist("ar1", "Artist One"));
    let first = vec![album("r1", "R1", "2023-01-01", "day", "Artist One")];
    let second = vec![
        album("r2", "R2", "2023-02-01", "day", "Artist One"),
        album("r3", "R3", "2023-03-01", "day", "Artist One"),
    ];
    store.add_releases_to_artist("ar1", first);
    store.add_releases_to_artist("ar1", second);
    let got = store.get_releases_for_artist("ar1").unwrap();
    let ids: Vec<&String> = got.iter().map(|a| &a.id).collect();
    assert_eq!(ids, vec!["r2", "r3"]);
    assert_eq!(store.count_releases(), 2);
}

#[test]
fn store_unknown_artist_batch_is_dropped() {
    let mut store = ArtistReleaseManager::new(None);
    store.add_artist(artist("known", "Known"));
    store.add_releases_to_artist("unknown", vec![album("r", "R", "2023-01-01", "day", "X")]);
    assert_eq!(store.count_releases(), 0);
    assert!(store.get_releases_for_artist("unknown").is_none());
}

#[test]
fn store_counts_and_accessors() {
    let mut store = ArtistReleaseManager::new(None);
    assert_eq!(store.count_artists(), 0);
    assert_eq!(store.count_releases(), 0);
    store.add_artists(vec![artist("a", "A"), artist("b", "B")]);
    assert_eq!(store.count_artists(), 2);
    let names: Vec<String> =
        store.get_all_artists().unwrap().into_iter().map(|a| a.name).collect();
    assert_eq!(names, vec!["A", "B"]);
    assert_eq!(store.all().unwrap().len(), 2);
}

#[test]
fn state_manager_records_and_clears() {
    let mut state = StateManager::new(STATE_TYPE_RELEASES.to_string());
    assert!(!state.has("x".to_string()));
    state.add("x".to_string());
    assert!(state.has("x".to_string()));
    assert!(!state.has("y".to_string()));
    assert_eq!(state.get_state().len(), 1);
    state.clear();
    assert!(!state.has("x".to_string()));
    assert_eq!(state.get_state().len(), 0);
}

#[test]
fn sync_skips_processed_and_fetches_rest() {
    // SyncState holds {A, B} of artists {A, B, C}: a non-forced pass makes
    // exactly one fetch, for C, and reuses the cached releases of A and B.
    let records = vec![
        ArtistReleases {
            artist: artist("A", "Artist A"),
            releases: vec![album("ra", "RA", "2023-10-02", "day", "Artist A")],
        },
        ArtistReleases { artist: artist("B", "Artist B"), releases: vec![] },
        ArtistReleases { artist: artist("C", "Artist C"), releases: vec![] },
    ];
    let store = ArtistReleaseManager::new(Some(records.clone()));
    let state = StateManager::from_parts(
        STATE_TYPE_RELEASES.to_string(),
        vec!["A".to_string(), "B".to_string()],
    );
    let mut engine = ReleaseSyncEngine::new(records, store, state, false);
    let mut fetched: Vec<String> = Vec::new();
    loop {
        match engine.next_step() {
            SyncStep::Fetch { artist_id } => {
                fetched.push(artist_id);
                engine.record_fetch_success(vec![album(
                    "rc",
                    "RC",
                    "2023-10-09",
                    "day",
                    "Artist C",
                )]);
            }
            SyncStep::Cooldown => {}
            SyncStep::Done { all_processed } => {
                assert!(all_processed);
                break;
            }
        }
    }
    assert_eq!(fetched, vec!["C"]);
    let (state, store, collected, all) = engine.finish();
    assert!(all);
    // collected: A's cached release plus C's fetched one; B had none.
    let ids: Vec<&String> = collected.iter().map(|a| &a.id).collect();
    assert_eq!(ids, vec!["ra", "rc"]);
    assert!(state.has("C".to_string()));
    let c_rel = store.get_releases_for_artist("C").unwrap();
    assert_eq!(c_rel.len(), 1);
    assert_eq!(c_rel[0].id, "rc");
}

#[test]
fn sync_aborts_pass_on_failure() {
    let records = vec![
        ArtistReleases { artist: artist("A", "Artist A"), releases: vec![] },
        ArtistReleases { artist: artist("B", "Artist B"), releases: vec![] },
    ];
    let store = ArtistReleaseManager::new(Some(records.clone()));
    let state = StateManager::new(STATE_TYPE_RELEASES.to_string());
    let mut engine = ReleaseSyncEngine::new(records, store, state, false);
    let mut fetches = 0;
    loop {
        match engine.next_step() {
            SyncStep::Fetch { artist_id } => {
                assert_eq!(artist_id, "A"); // B is never reached
                fetches += 1;
                engine.record_fetch_failure();
            }
            SyncStep::Cooldown => {}
            SyncStep::Done { all_processed } => {
                assert!(!all_processed);
                break;
            }
        }
    }
    assert_eq!(fetches, 1);
}

#[test]
fn forced_sync_refetches_processed_artists() {
    let records = vec![ArtistReleases {
        artist: artist("A", "Artist A"),
        releases: vec![album("old", "Old", "2023-01-02", "day", "Artist A")],
    }];
    let store = ArtistReleaseManager::new(Some(records.clone()));
    let state =
        StateManager::from_parts(STATE_TYPE_RELEASES.to_string(), vec!["A".to_string()]);
    let mut engine = ReleaseSyncEngine::new(records, store, state, true);
    let mut fetched = 0;
    loop {
        match engine.next_step() {
            SyncStep::Fetch { artist_id } => {
                assert_eq!(artist_id, "A");
                fetched += 1;
                engine.record_fetch_success(vec![]);
            }
            SyncStep::Cooldown => {}
            SyncStep::Done { all_processed } => {
                assert!(all_processed);
                break;
            }
        }
    }
    assert_eq!(fetched, 1);
    // An empty successful fetch still replaces wholesale: the stale stored
    // release is gone.
    let (_state, store, _collected, _all) = engine.finish();
    assert!(store.get_releases_for_artist("A").unwrap().is_empty());
    assert_eq!(store.count_releases(), 0);
}

#[test]
fn kinds_display_then_parse_round_trips() {
    let mut ks = ReleaseKinds::new();
    ks.insert(ReleaseKind::Compilation);
    ks.insert(ReleaseKind::Album);
    let reparsed = parse_release_kinds(&ks.to_string()).unwrap();
    assert_eq!(reparsed.iter(), ks.iter());

    let one = ReleaseKinds::default();
    let reparsed = parse_release_kinds(&one.to_string()).unwrap();
    assert_eq!(reparsed.iter(), vec![ReleaseKind::Album]);
}

#[test]
fn rate_limit_wait_honours_bound() {
    assert_eq!(rate_limit_wait(0), Some(0));
    assert_eq!(rate_limit_wait(120), Some(120));
    assert_eq!(rate_limit_wait(121), None);
}

#[test]
fn planned_new_artists_counts_surplus() {
    assert_eq!(planned_new_artists(10, 15, false), 5);
    assert_eq!(planned_new_artists(15, 15, false), 0);
    assert_eq!(planned_new_artists(20, 15, false), 0);
    assert_eq!(planned_new_artists(10, 15, true), 0);
}

#[test]
fn artist_fetch_plan_paginates() {
    let mut plan = ArtistFetchPlan::new(120);
    assert_eq!(plan.next_request(), Some(50));
    plan.record_page(50, Some("cur1".to_string()));
    assert_eq!(plan.next_request(), Some(50));
    plan.record_page(50, Some("cur2".to_string()));
    assert_eq!(plan.next_request(), Some(20));
    plan.record_page(20, None);
    assert_eq!(plan.next_request(), None);
}

#[test]
fn artist_listing_filters_and_sorts() {
    let artists = vec![
        artist("1", "Zebra Sound"),
        artist("2", "alpha beat"),
        artist("3", "The SOUND Garden"),
        artist("4", "Quiet"),
    ];
    let all = filter_and_sort_artists(artists.clone(), None);
    let names: Vec<&String> = all.iter().map(|a| &a.name).collect();
    assert_eq!(names, vec!["alpha beat", "Quiet", "The SOUND Garden", "Zebra Sound"]);

    let found = filter_and_sort_artists(artists, Some("sound".to_string()));
    let names: Vec<&String> = found.iter().map(|a| &a.name).collect();
    assert_eq!(names, vec!["The SOUND Garden", "Zebra Sound"]);
}

#[test]
fn artist_rows_join_first_three_genres() {
    let a = Artist {
        id: "g".to_string(),
        name: "Genre Rich".to_string(),
        genres: vec![
            "one".to_string(),
            "two".to_string(),
            "three".to_string(),
            "four".to_string(),
        ],
    };
    let rows = to_artist_rows(vec![a, artist("p", "Plain")]);
    assert_eq!(rows.len(), 2);
    assert_eq!(rows[0].name, "Genre Rich");
    assert_eq!(rows[0].genres, "one,two,three");
    assert_eq!(rows[1].genres, "");
}

#[test]
fn release_rows_take_first_artist() {
    let mut a = album("i", "Title", "2023-10-01", "day", "Lead");
    a.artists.push(AlbumArtist { id: "other".to_string(), name: "Other".to_string() });
    let none = Album {
        id: "n".to_string(),
        name: "No artist".to_string(),
        release_date: "2023-10-02".to_string(),
        release_date_precision: "day".to_string(),
        album_type: "album".to_string(),
        artists: vec![],
    };
    let rows = to_release_rows(vec![a, none]);
    assert_eq!(rows[0].artists, "Lead");
    assert_eq!(rows[0].date, "2023-10-01");
    assert_eq!(rows[1].artists, "");
}

#[test]
fn playlist_names_and_numbers() {
    assert_eq!(u64_to_string(0), "0");
    assert_eq!(u64_to_string(2023), "2023");
    assert_eq!(
        playlist_name_for(42, 2023, ReleaseKind::Album),
        "Weekly Picks 42/2023 (album)"
    );
    assert_eq!(
        playlist_name_for(7, 2024, ReleaseKind::AppearsOn),
        "Weekly Picks 7/2024 (appears_on)"
    );
}

#[test]
fn first_tracks_picks_leads() {
    let t = |id: &str| Track {
        id: id.to_string(),
        name: format!("track {}", id),
        uri: format!("uri:{}", id),
    };
    let resp = GetSeveralAlbumsResponse {
        albums: vec![
            GetAlbumResponse {
                id: "a1".to_string(),
                name: "A1".to_string(),
                release_date: "2023-10-01".to_string(),
                tracks: Tracks { items: vec![t("x"), t("y")] },
            },
            GetAlbumResponse {
                id: "a2".to_string(),
                name: "A2".to_string(),
                release_date: "2023-10-02".to_string(),
                tracks: Tracks { items: vec![] },
            },
        ],
    };
    let resp2 = GetSeveralAlbumsResponse {
        albums: vec![GetAlbumResponse {
            id: "a3".to_string(),
            name: "A3".to_string(),
            release_date: "2023-10-03".to_string(),
            tracks: Tracks { items: vec![t("z")] },
        }],
    };
    let tracks = first_tracks(vec![resp, resp2]);
    let ids: Vec<&String> = tracks.iter().map(|t| &t.id).collect();
    assert_eq!(ids, vec!["x", "z"]);
}

#[test]
fn release_week_manager_holds_releases() {
    let mgr = sporlcli::bucket::ReleaseWeekManager::new(
        42,
        2023,
        Some(vec![album("w", "W", "2023-10-20", "day", "A")]),
    );
    let got = mgr.get_releases().unwrap();
    assert_eq!(got.len(), 1);
    assert_eq!(got[0].id, "w");
    let empty = sporlcli::bucket::ReleaseWeekManager::new(1, 2023, None);
    assert!(empty.get_releases().unwrap().is_empty());
}

#[test]
fn code_challenge_known_values() {
    // RFC 7636 challenges: base64url(SHA-256(verifier)), unpadded.
    assert_eq!(
        sporlcli::pkce::generate_code_challenge("test_verifier_123"),
        "HGfpffSApehaWh1OQoi0h-f-k3IZ1CickraFS3UbMvk"
    );
    assert_eq!(
        sporlcli::pkce::generate_code_challenge("abc"),
        "ungWv48Bz-pBQUDeXa4iI7ADYaOWF3qctBD_YfIAFa0"
    );
}

#[test]
fn token_expiry_margin() {
    let token = Token {
        access_token: "SECRET-REDACTED".to_string(),
        refresh_token: "SECRET-REDACTED".to_string(),
        scope: "scope".to_string(),
        expires_in: 3600,
        obtained_at: 10_000,
    };
    let mgr = TokenManager::new(token);
    assert!(!mgr.is_expired(10_000));
    assert!(!mgr.is_expired(13_359)); // just inside the margin
    assert!(mgr.is_expired(13_360)); // margin reached
    assert!(mgr.is_expired(14_000));
    assert_eq!(mgr.current_token().expires_in, 3600);
}
