use osu_scores::collect::{
    collect_rows, dispatch_count, in_period, process_score, BeatmapCompact, BeatmapSetCompact,
    Period, Score, UserCompact, UserStatistics,
};
use osu_scores::error::OsuApiError;
use osu_scores::mods::{OsuMods, HIDDEN, NIGHTCORE};
use osu_scores::time::{parse_created_at, DateError};

const DAY: i64 = 86_400;
const FROM: i64 = 1_682_899_200; // 2023-05-01T00:00:00Z
const TO: i64 = FROM + 10 * DAY;

fn period() -> Period {
    Period { from: FROM, to: TO }
}

fn user(id: i64, name: &str, pp: f32, global_rank: i32) -> UserStatistics<f32> {
    UserStatistics { pp, global_rank, user: UserCompact { id, username: name.to_string() } }
}

fn score(id: i64, user_id: i64, created_at: i64, mods: u32) -> Score<f32> {
    Score {
        id,
        best_id: id,
        user_id,
        accuracy: 0.98,
        mods: OsuMods::from_bits(mods),
        score: 1_000_000,
        pp: 300.5,
        created_at,
        replay: true,
        beatmapset: BeatmapSetCompact {
            artist: "Artist".to_string(),
            artist_unicode: "Artist".to_string(),
            creator: "mapper".to_string(),
            source: String::new(),
            title: "Song".to_string(),
            title_unicode: "Song".to_string(),
        },
        beatmap: BeatmapCompact { version: "Insane".to_string() },
    }
}

#[test]
fn window_excludes_both_ends() {
    let p = period();
    assert!(!in_period(&p, FROM));
    assert!(!in_period(&p, TO));
    assert!(in_period(&p, FROM + 1));
    assert!(in_period(&p, TO - 1));
    assert!(!in_period(&p, FROM - 1));
    assert!(!in_period(&p, TO + 1));
}

#[test]
fn rows_of_one_user_keep_order() {
    let u = user(7, "alice", 9000.0, 12);
    let scores = vec![
        score(1, 7, FROM + DAY, HIDDEN),
        score(2, 7, FROM, 0),
        score(3, 7, FROM + 2 * DAY, NIGHTCORE),
        score(4, 7, TO, 0),
    ];
    let rows = process_score(&u, 4, &scores, &period());
    assert_eq!(rows.len(), 2);
    assert_eq!(rows[0].score_id, 1);
    assert_eq!(rows[1].score_id, 3);
    assert_eq!(rows[0].mods, "HD");
    assert_eq!(rows[1].mods, "NC");
    assert_eq!(rows[0].map, "Artist - Song");
    assert_eq!(rows[0].diff, "Insane");
    assert_eq!(rows[0].username, "alice");
    assert_eq!(rows[0].country_rank, 5);
    assert_eq!(rows[0].global_rank, 12);
    assert_eq!(rows[0].total_pp, 9000.0);
    assert_eq!(rows[0].pp, 300.5);
    assert!(rows[0].replay);
}

#[test]
fn end_to_end_three_users() {
    let users = vec![user(1, "one", 12000.5, 40), user(2, "two", 11000.0, 55), user(3, "three", 10000.0, 80)];
    let results: Vec<Result<Vec<Score<f32>>, OsuApiError>> = vec![
        Ok(vec![
            score(11, 1, FROM + DAY, 0),
            score(12, 1, TO + DAY, 0),
            score(13, 1, FROM + 3 * DAY, HIDDEN),
        ]),
        Ok(Vec::new()),
        Err(OsuApiError::ServiceUnavailable),
    ];
    let rows = collect_rows(&users, &results, &period());
    assert_eq!(rows.len(), 2);
    for row in &rows {
        assert_eq!(row.username, "one");
        assert_eq!(row.country_rank, 1);
        assert_eq!(row.global_rank, 40);
        assert_eq!(row.total_pp, 12000.5);
    }
    assert_eq!(rows[0].score_id, 11);
    assert_eq!(rows[1].score_id, 13);
}

#[test]
fn failed_fetch_does_not_affect_others() {
    let users = vec![user(1, "one", 1.0, 1), user(2, "two", 2.0, 2), user(3, "three", 3.0, 3)];
    let results: Vec<Result<Vec<Score<f32>>, OsuApiError>> = vec![
        Ok(vec![score(11, 1, FROM + DAY, 0)]),
        Err(OsuApiError::NoToken),
        Ok(vec![score(31, 3, FROM + DAY, 0), score(32, 3, FROM + 2 * DAY, 0)]),
    ];
    let rows = collect_rows(&users, &results, &period());
    let ids: Vec<(i64, i32)> = rows.iter().map(|r| (r.score_id, r.country_rank)).collect();
    assert_eq!(ids, vec![(11, 1), (31, 3), (32, 3)]);
}

#[test]
fn fewer_results_than_users() {
    let users = vec![user(1, "one", 1.0, 1), user(2, "two", 2.0, 2)];
    let results: Vec<Result<Vec<Score<f32>>, OsuApiError>> =
        vec![Ok(vec![score(11, 1, FROM + DAY, 0)])];
    assert_eq!(collect_rows(&users, &results, &period()).len(), 1);
}

#[test]
fn dispatch_takes_first_amount() {
    assert_eq!(dispatch_count(100, 30), 30);
    assert_eq!(dispatch_count(20, 30), 20);
    assert_eq!(dispatch_count(0, 5), 0);
}

#[test]
fn timestamps_parse_as_utc() {
    assert_eq!(parse_created_at("2023-05-01T12:00:00Z").unwrap(), 1_682_942_400);
    assert_eq!(parse_created_at("1970-01-01T00:00:00Z").unwrap(), 0);
}

#[test]
fn timestamps_without_the_format_fail() {
    match parse_created_at("2023-05-01 12:00:00") {
        Err(DateError::Invalid { text }) => assert_eq!(text, "2023-05-01 12:00:00"),
        Ok(t) => panic!("parsed {}", t),
    }
    assert!(parse_created_at("01-05-2023").is_err());
}
