use gaokao_apply::rank::{get_local_rank, shanghai_2025_rank_of, BENCH_SCORE, FULL_SCORE};

#[test]
fn top_score_rank() {
    let r = get_local_rank(660, None).unwrap();
    assert_eq!(r.score, 660);
    assert_eq!(r.rank, Some(52));
    assert_eq!(r.year, "2025");
    assert_eq!(r.province, "上海");
    assert!(r.is_above_bench);
    assert_eq!(r.total_students, Some(49276));
    assert_eq!(r.bench_score, 402);
    assert_eq!(r.message, "2025年上海高考660分，位次第52名（共约49276人在本科线以上）");
}

#[test]
fn bench_score_rank() {
    let r = get_local_rank(402, Some("2025".to_string())).unwrap();
    assert_eq!(r.rank, Some(49276));
    let r = get_local_rank(600, None).unwrap();
    assert_eq!(r.rank, Some(1250));
    let r = get_local_rank(622, None).unwrap();
    assert_eq!(r.rank, Some(64));
}

#[test]
fn below_bench_has_no_rank() {
    let r = get_local_rank(401, None).unwrap();
    assert_eq!(r.rank, None);
    assert!(!r.is_above_bench);
    assert_eq!(r.total_students, None);
    assert_eq!(r.message, "401分低于2025年上海本科线(402分)，无位次数据");
    let r = get_local_rank(0, None).unwrap();
    assert_eq!(r.message, "0分低于2025年上海本科线(402分)，无位次数据");
}

#[test]
fn above_full_score_is_an_error() {
    assert_eq!(
        get_local_rank(661, None).unwrap_err(),
        "分数661超出上海高考满分(660分)范围"
    );
    assert_eq!(
        get_local_rank(u32::MAX, None).unwrap_err(),
        "分数4294967295超出上海高考满分(660分)范围"
    );
}

#[test]
fn other_years_are_unsupported() {
    assert_eq!(
        get_local_rank(600, Some("2024".to_string())).unwrap_err(),
        "暂不支持2024年的上海高考位次查询，目前仅支持2025年"
    );
    assert_eq!(
        get_local_rank(700, Some("".to_string())).unwrap_err(),
        "暂不支持年的上海高考位次查询，目前仅支持2025年"
    );
}

#[test]
fn every_score_in_range_has_a_rank_and_ranks_are_monotone() {
    let mut prev = 0u32;
    for s in (BENCH_SCORE..=FULL_SCORE).rev() {
        let r = shanghai_2025_rank_of(s).unwrap();
        assert!(r >= prev);
        prev = r;
        assert!(get_local_rank(s, None).unwrap().rank.is_some());
    }
    assert_eq!(shanghai_2025_rank_of(401), None);
    assert_eq!(shanghai_2025_rank_of(661), None);
}
