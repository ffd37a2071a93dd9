//! The 2025 Shanghai score-to-rank table (一分一段表) and the local rank
//! query built on it.
use vstd::prelude::*;
use vstd::string::StringExecFns;
use crate::text::{append_chars, chars_eq, chars_of, decimal, push_decimal, string_of};

verus! {

/// The 2025 Shanghai undergraduate admission line (本科线).
pub const BENCH_SCORE: u32 = 402;

/// The highest total score in the 2025 Shanghai examination.
pub const FULL_SCORE: u32 = 660;

/// The number of candidates at or above the 2025 admission line.
pub const TOTAL_ABOVE_BENCH: u32 = 49276;

/// Rank (cumulative number of candidates) of a total score in the 2025
/// Shanghai table, which covers every score from 402 to 660
/// (source: sh.bendibao.com).
pub open spec fn shanghai_2025_rank(score: u32) -> Option<u32> {
    match score {
        660 => Some(52),
        659 => Some(52),
        658 => Some(52),
        657 => Some(52),
        656 => Some(52),
        655 => Some(52),
        654 => Some(52),
        653 => Some(52),
        652 => Some(52),
        651 => Some(52),
        650 => Some(52),
        649 => Some(52),
        648 => Some(52),
        647 => Some(52),
        646 => Some(52),
        645 => Some(52),
        644 => Some(52),
        643 => Some(52),
        642 => Some(52),
        641 => Some(52),
        640 => Some(52),
        639 => Some(52),
        638 => Some(52),
        637 => Some(52),
        636 => Some(52),
        635 => Some(52),
        634 => Some(52),
        633 => Some(52),
        632 => Some(52),
        631 => Some(52),
        630 => Some(52),
        629 => Some(52),
        628 => Some(52),
        627 => Some(52),
        626 => Some(52),
        625 => Some(52),
        624 => Some(52),
        623 => Some(52),
        622 => Some(64),
        621 => Some(75),
        620 => Some(95),
        619 => Some(119),
        618 => Some(137),
        617 => Some(171),
        616 => Some(203),
        615 => Some(236),
        614 => Some(272),
        613 => Some(322),
        612 => Some(365),
        611 => Some(399),
        610 => Some(460),
        609 => Some(537),
        608 => Some(600),
        607 => Some(656),
        606 => Some(726),
        605 => Some(789),
        604 => Some(878),
        603 => Some(952),
        602 => Some(1048),
        601 => Some(1146),
        600 => Some(1250),
        599 => Some(1346),
        598 => Some(1465),
        597 => Some(1566),
        596 => Some(1671),
        595 => Some(1795),
        594 => Some(1939),
        593 => Some(2093),
        592 => Some(2237),
        591 => Some(2371),
        590 => Some(2503),
        589 => Some(2641),
        588 => Some(2789),
        587 => Some(2946),
        586 => Some(3078),
        585 => Some(3231),
        584 => Some(3396),
        583 => Some(3567),
        582 => Some(3757),
        581 => Some(3934),
        580 => Some(4096),
        579 => Some(4285),
        578 => Some(4467),
        577 => Some(4649),
        576 => Some(4823),
        575 => Some(5016),
        574 => Some(5214),
        573 => Some(5410),
        572 => Some(5610),
        571 => Some(5815),
        570 => Some(6004),
        569 => Some(6182),
        568 => Some(6379),
        567 => Some(6602),
        566 => Some(6814),
        565 => Some(7040),
        564 => Some(7257),
        563 => Some(7447),
        562 => Some(7663),
        561 => Some(7891),
        560 => Some(8117),
        559 => Some(8336),
        558 => Some(8579),
        557 => Some(8824),
        556 => Some(9039),
        555 => Some(9302),
        554 => Some(9550),
        553 => Some(9779),
        552 => Some(10002),
        551 => Some(10254),
        550 => Some(10506),
        549 => Some(10761),
        548 => Some(11041),
        547 => Some(11283),
        546 => Some(11525),
        545 => Some(11777),
        544 => Some(12020),
        543 => Some(12291),
        542 => Some(12532),
        541 => Some(12796),
        540 => Some(13049),
        539 => Some(13322),
        538 => Some(13615),
        537 => Some(13876),
        536 => Some(14128),
        535 => Some(14414),
        534 => Some(14696),
        533 => Some(14978),
        532 => Some(15236),
        531 => Some(15514),
        530 => Some(15808),
        529 => Some(16109),
        528 => Some(16393),
        527 => Some(16655),
        526 => Some(16940),
        525 => Some(17222),
        524 => Some(17497),
        523 => Some(17799),
        522 => Some(18065),
        521 => Some(18317),
        520 => Some(18580),
        519 => Some(18844),
        518 => Some(19117),
        517 => Some(19421),
        516 => Some(19710),
        515 => Some(19985),
        514 => Some(20273),
        513 => Some(20546),
        512 => Some(20807),
        511 => Some(21070),
        510 => Some(21367),
        509 => Some(21654),
        508 => Some(21944),
        507 => Some(22221),
        506 => Some(22512),
        505 => Some(22797),
        504 => Some(23089),
        503 => Some(23377),
        502 => Some(23673),
        501 => Some(23963),
        500 => Some(24251),
        499 => Some(24524),
        498 => Some(24798),
        497 => Some(25079),
        496 => Some(25365),
        495 => Some(25620),
        494 => Some(25917),
        493 => Some(26212),
        492 => Some(26498),
        491 => Some(26773),
        490 => Some(27085),
        489 => Some(27375),
        488 => Some(27683),
        487 => Some(27962),
        486 => Some(28229),
        485 => Some(28531),
        484 => Some(28826),
        483 => Some(29108),
        482 => Some(29358),
        481 => Some(29641),
        480 => Some(29907),
        479 => Some(30198),
        478 => Some(30490),
        477 => Some(30789),
        476 => Some(31096),
        475 => Some(31381),
        474 => Some(31654),
        473 => Some(31954),
        472 => Some(32224),
        471 => Some(32490),
        470 => Some(32768),
        469 => Some(33044),
        468 => Some(33357),
        467 => Some(33627),
        466 => Some(33926),
        465 => Some(34206),
        464 => Some(34489),
        463 => Some(34731),
        462 => Some(35017),
        461 => Some(35266),
        460 => Some(35524),
        459 => Some(35786),
        458 => Some(36057),
        457 => Some(36333),
        456 => Some(36580),
        455 => Some(36838),
        454 => Some(37099),
        453 => Some(37376),
        452 => Some(37654),
        451 => Some(37914),
        450 => Some(38181),
        449 => Some(38464),
        448 => Some(38707),
        447 => Some(38962),
        446 => Some(39191),
        445 => Some(39429),
        444 => Some(39679),
        443 => Some(39958),
        442 => Some(40203),
        441 => Some(40472),
        440 => Some(40711),
        439 => Some(40963),
        438 => Some(41209),
        437 => Some(41436),
        436 => Some(41677),
        435 => Some(41932),
        434 => Some(42167),
        433 => Some(42400),
        432 => Some(42668),
        431 => Some(42899),
        430 => Some(43131),
        429 => Some(43379),
        428 => Some(43622),
        427 => Some(43830),
        426 => Some(44086),
        425 => Some(44325),
        424 => Some(44546),
        423 => Some(44773),
        422 => Some(45012),
        421 => Some(45226),
        420 => Some(45426),
        419 => Some(45675),
        418 => Some(45887),
        417 => Some(46139),
        416 => Some(46346),
        415 => Some(46550),
        414 => Some(46738),
        413 => Some(46964),
        412 => Some(47200),
        411 => Some(47401),
        410 => Some(47630),
        409 => Some(47844),
        408 => Some(48030),
        407 => Some(48244),
        406 => Some(48458),
        405 => Some(48663),
        404 => Some(48868),
        403 => Some(49069),
        402 => Some(49276),
        _ => None,
    }
}

/// Every score from the admission line up to the full score has a rank in the
/// table, so that a 2025 query of a score up to 660 always succeeds.
pub proof fn lemma_table_covers_scores(score: u32)
    requires
        BENCH_SCORE <= score <= FULL_SCORE,
    ensures
        shanghai_2025_rank(score) is Some,
{
}

/// One point more never gives a larger rank.
#[verifier::rlimit(50)]
proof fn lemma_rank_step(score: u32)
    requires
        BENCH_SCORE <= score < FULL_SCORE,
    ensures
        shanghai_2025_rank((score + 1) as u32)->0 <= shanghai_2025_rank(score)->0,
{
}

/// A higher score never has a larger rank: the table is monotone.
pub proof fn lemma_rank_monotone(low: u32, high: u32)
    requires
        BENCH_SCORE <= low <= high <= FULL_SCORE,
    ensures
        shanghai_2025_rank(high)->0 <= shanghai_2025_rank(low)->0,
    decreases high - low,
{
    if low < high {
        lemma_rank_step(low);
        lemma_rank_monotone((low + 1) as u32, high);
    }
}

/// Looks `score` up in the 2025 Shanghai table.
pub fn shanghai_2025_rank_of(score: u32) -> (r: Option<u32>)
    ensures
        r == shanghai_2025_rank(score),
{
    match score {
        660 => Some(52),
        659 => Some(52),
        658 => Some(52),
        657 => Some(52),
        656 => Some(52),
        655 => Some(52),
        654 => Some(52),
        653 => Some(52),
        652 => Some(52),
        651 => Some(52),
        650 => Some(52),
        649 => Some(52),
        648 => Some(52),
        647 => Some(52),
        646 => Some(52),
        645 => Some(52),
        644 => Some(52),
        643 => Some(52),
        642 => Some(52),
        641 => Some(52),
        640 => Some(52),
        639 => Some(52),
        638 => Some(52),
        637 => Some(52),
        636 => Some(52),
        635 => Some(52),
        634 => Some(52),
        633 => Some(52),
        632 => Some(52),
        631 => Some(52),
        630 => Some(52),
        629 => Some(52),
        628 => Some(52),
        627 => Some(52),
        626 => Some(52),
        625 => Some(52),
        624 => Some(52),
        623 => Some(52),
        622 => Some(64),
        621 => Some(75),
        620 => Some(95),
        619 => Some(119),
        618 => Some(137),
        617 => Some(171),
        616 => Some(203),
        615 => Some(236),
        614 => Some(272),
        613 => Some(322),
        612 => Some(365),
        611 => Some(399),
        610 => Some(460),
        609 => Some(537),
        608 => Some(600),
        607 => Some(656),
        606 => Some(726),
        605 => Some(789),
        604 => Some(878),
        603 => Some(952),
        602 => Some(1048),
        601 => Some(1146),
        600 => Some(1250),
        599 => Some(1346),
        598 => Some(1465),
        597 => Some(1566),
        596 => Some(1671),
        595 => Some(1795),
        594 => Some(1939),
        593 => Some(2093),
        592 => Some(2237),
        591 => Some(2371),
        590 => Some(2503),
        589 => Some(2641),
        588 => Some(2789),
        587 => Some(2946),
        586 => Some(3078),
        585 => Some(3231),
        584 => Some(3396),
        583 => Some(3567),
        582 => Some(3757),
        581 => Some(3934),
        580 => Some(4096),
        579 => Some(4285),
        578 => Some(4467),
        577 => Some(4649),
        576 => Some(4823),
        575 => Some(5016),
        574 => Some(5214),
        573 => Some(5410),
        572 => Some(5610),
        571 => Some(5815),
        570 => Some(6004),
        569 => Some(6182),
        568 => Some(6379),
        567 => Some(6602),
        566 => Some(6814),
        565 => Some(7040),
        564 => Some(7257),
        563 => Some(7447),
        562 => Some(7663),
        561 => Some(7891),
        560 => Some(8117),
        559 => Some(8336),
        558 => Some(8579),
        557 => Some(8824),
        556 => Some(9039),
        555 => Some(9302),
        554 => Some(9550),
        553 => Some(9779),
        552 => Some(10002),
        551 => Some(10254),
        550 => Some(10506),
        549 => Some(10761),
        548 => Some(11041),
        547 => Some(11283),
        546 => Some(11525),
        545 => Some(11777),
        544 => Some(12020),
        543 => Some(12291),
        542 => Some(12532),
        541 => Some(12796),
        540 => Some(13049),
        539 => Some(13322),
        538 => Some(13615),
        537 => Some(13876),
        536 => Some(14128),
        535 => Some(14414),
        534 => Some(14696),
        533 => Some(14978),
        532 => Some(15236),
        531 => Some(15514),
        530 => Some(15808),
        529 => Some(16109),
        528 => Some(16393),
        527 => Some(16655),
        526 => Some(16940),
        525 => Some(17222),
        524 => Some(17497),
        523 => Some(17799),
        522 => Some(18065),
        521 => Some(18317),
        520 => Some(18580),
        519 => Some(18844),
        518 => Some(19117),
        517 => Some(19421),
        516 => Some(19710),
        515 => Some(19985),
        514 => Some(20273),
        513 => Some(20546),
        512 => Some(20807),
        511 => Some(21070),
        510 => Some(21367),
        509 => Some(21654),
        508 => Some(21944),
        507 => Some(22221),
        506 => Some(22512),
        505 => Some(22797),
        504 => Some(23089),
        503 => Some(23377),
        502 => Some(23673),
        501 => Some(23963),
        500 => Some(24251),
        499 => Some(24524),
        498 => Some(24798),
        497 => Some(25079),
        496 => Some(25365),
        495 => Some(25620),
        494 => Some(25917),
        493 => Some(26212),
        492 => Some(26498),
        491 => Some(26773),
        490 => Some(27085),
        489 => Some(27375),
        488 => Some(27683),
        487 => Some(27962),
        486 => Some(28229),
        485 => Some(28531),
        484 => Some(28826),
        483 => Some(29108),
        482 => Some(29358),
        481 => Some(29641),
        480 => Some(29907),
        479 => Some(30198),
        478 => Some(30490),
        477 => Some(30789),
        476 => Some(31096),
        475 => Some(31381),
        474 => Some(31654),
        473 => Some(31954),
        472 => Some(32224),
        471 => Some(32490),
        470 => Some(32768),
        469 => Some(33044),
        468 => Some(33357),
        467 => Some(33627),
        466 => Some(33926),
        465 => Some(34206),
        464 => Some(34489),
        463 => Some(34731),
        462 => Some(35017),
        461 => Some(35266),
        460 => Some(35524),
        459 => Some(35786),
        458 => Some(36057),
        457 => Some(36333),
        456 => Some(36580),
        455 => Some(36838),
        454 => Some(37099),
        453 => Some(37376),
        452 => Some(37654),
        451 => Some(37914),
        450 => Some(38181),
        449 => Some(38464),
        448 => Some(38707),
        447 => Some(38962),
        446 => Some(39191),
        445 => Some(39429),
        444 => Some(39679),
        443 => Some(39958),
        442 => Some(40203),
        441 => Some(40472),
        440 => Some(40711),
        439 => Some(40963),
        438 => Some(41209),
        437 => Some(41436),
        436 => Some(41677),
        435 => Some(41932),
        434 => Some(42167),
        433 => Some(42400),
        432 => Some(42668),
        431 => Some(42899),
        430 => Some(43131),
        429 => Some(43379),
        428 => Some(43622),
        427 => Some(43830),
        426 => Some(44086),
        425 => Some(44325),
        424 => Some(44546),
        423 => Some(44773),
        422 => Some(45012),
        421 => Some(45226),
        420 => Some(45426),
        419 => Some(45675),
        418 => Some(45887),
        417 => Some(46139),
        416 => Some(46346),
        415 => Some(46550),
        414 => Some(46738),
        413 => Some(46964),
        412 => Some(47200),
        411 => Some(47401),
        410 => Some(47630),
        409 => Some(47844),
        408 => Some(48030),
        407 => Some(48244),
        406 => Some(48458),
        405 => Some(48663),
        404 => Some(48868),
        403 => Some(49069),
        402 => Some(49276),
        _ => None,
    }
}

/// The answer to a rank query: the JSON object that the query returns, field
/// by field.
#[derive(Debug, Clone)]
pub struct RankReport {
    pub score: u32,
    pub year: String,
    pub province: String,
    pub rank: Option<u32>,
    pub bench_score: u32,
    pub is_above_bench: bool,
    pub total_students: Option<u32>,
    pub message: String,
}

/// The message for a score under the admission line.
pub open spec fn below_bench_message(score: u32) -> Seq<char> {
    decimal(score as nat) + "分低于2025年上海本科线("@ + decimal(BENCH_SCORE as nat)
        + "分)，无位次数据"@
}

/// The message for a score found in the table.
pub open spec fn ranked_message(score: u32, rank: u32) -> Seq<char> {
    "2025年上海高考"@ + decimal(score as nat) + "分，位次第"@ + decimal(rank as nat) + "名（共约"@
        + decimal(TOTAL_ABOVE_BENCH as nat) + "人在本科线以上）"@
}

/// The error for a score above the full score.
pub open spec fn over_full_score_error(score: u32) -> Seq<char> {
    "分数"@ + decimal(score as nat) + "超出上海高考满分(660分)范围"@
}

/// The error for a score that the table does not hold.
pub open spec fn not_in_table_error(score: u32) -> Seq<char> {
    "未找到2025年上海高考"@ + decimal(score as nat) + "分的位次数据"@
}

/// The error for a year other than 2025.
pub open spec fn unsupported_year_error(year: Seq<char>) -> Seq<char> {
    "暂不支持"@ + year + "年的上海高考位次查询，目前仅支持2025年"@
}

/// The year a query asks about: the given one, or 2025.
pub open spec fn query_year(year: Option<String>) -> Seq<char> {
    match year {
        Some(y) => y@,
        None => "2025"@,
    }
}

/// The Ok answer of a query, in its parts.
pub open spec fn report_is(
    r: RankReport,
    score: u32,
    rank: Option<u32>,
    above: bool,
    total: Option<u32>,
    message: Seq<char>,
) -> bool {
    &&& r.score == score
    &&& r.year@ == "2025"@
    &&& r.province@ == "上海"@
    &&& r.rank == rank
    &&& r.bench_score == BENCH_SCORE
    &&& r.is_above_bench == above
    &&& r.total_students == total
    &&& r.message@ == message
}

/// 查询上海高考成绩对应的位次排名（本地数据，无需网络）
///
/// Only 2025 is supported. A score above 660 is an error; a score under the
/// admission line 402 has no rank; any other score is looked up in the table.
pub fn get_local_rank(score: u32, year: Option<String>) -> (r: Result<RankReport, String>)
    ensures
        query_year(year) != "2025"@ ==> (r matches Err(e) && e@ == unsupported_year_error(
            query_year(year),
        )),
        query_year(year) == "2025"@ && score > FULL_SCORE ==> (r matches Err(e) && e@
            == over_full_score_error(score)),
        query_year(year) == "2025"@ && score < BENCH_SCORE ==> (r matches Ok(rep) && report_is(
            rep,
            score,
            None,
            false,
            None,
            below_bench_message(score),
        )),
        query_year(year) == "2025"@ && BENCH_SCORE <= score <= FULL_SCORE ==> match
            shanghai_2025_rank(score) {
            Some(rank) => r matches Ok(rep) && report_is(
                rep,
                score,
                Some(rank),
                true,
                Some(TOTAL_ABOVE_BENCH),
                ranked_message(score, rank),
            ),
            None => r matches Err(e) && e@ == not_in_table_error(score),
        },
{
    let year_text: String = match year {
        Some(y) => y,
        None => String::from_str("2025"),
    };
    let year_chars = chars_of(year_text.as_str());
    let supported = chars_of("2025");
    if !chars_eq(year_chars.as_slice(), supported.as_slice()) {
        let mut e = chars_of("暂不支持");
        append_chars(&mut e, year_chars.as_slice());
        let tail = chars_of("年的上海高考位次查询，目前仅支持2025年");
        append_chars(&mut e, tail.as_slice());
        return Err(string_of(e.as_slice()));
    }
    if score > FULL_SCORE {
        let mut e = chars_of("分数");
        push_decimal(&mut e, score as u64);
        let tail = chars_of("超出上海高考满分(660分)范围");
        append_chars(&mut e, tail.as_slice());
        return Err(string_of(e.as_slice()));
    }
    if score < BENCH_SCORE {
        let mut m: Vec<char> = Vec::new();
        push_decimal(&mut m, score as u64);
        let mid = chars_of("分低于2025年上海本科线(");
        append_chars(&mut m, mid.as_slice());
        push_decimal(&mut m, BENCH_SCORE as u64);
        let tail = chars_of("分)，无位次数据");
        append_chars(&mut m, tail.as_slice());
        return Ok(
            RankReport {
                score,
                year: String::from_str("2025"),
                province: String::from_str("上海"),
                rank: None,
                bench_score: BENCH_SCORE,
                is_above_bench: false,
                total_students: None,
                message: string_of(m.as_slice()),
            },
        );
    }
    match shanghai_2025_rank_of(score) {
        Some(rank) => {
            let mut m = chars_of("2025年上海高考");
            push_decimal(&mut m, score as u64);
            let mid = chars_of("分，位次第");
            append_chars(&mut m, mid.as_slice());
            push_decimal(&mut m, rank as u64);
            let mid2 = chars_of("名（共约");
            append_chars(&mut m, mid2.as_slice());
            push_decimal(&mut m, TOTAL_ABOVE_BENCH as u64);
            let tail = chars_of("人在本科线以上）");
            append_chars(&mut m, tail.as_slice());
            Ok(
                RankReport {
                    score,
                    year: String::from_str("2025"),
                    province: String::from_str("上海"),
                    rank: Some(rank),
                    bench_score: BENCH_SCORE,
                    is_above_bench: true,
                    total_students: Some(TOTAL_ABOVE_BENCH),
                    message: string_of(m.as_slice()),
                },
            )
        },
        None => {
            let mut e = chars_of("未找到2025年上海高考");
            push_decimal(&mut e, score as u64);
            let tail = chars_of("分的位次数据");
            append_chars(&mut e, tail.as_slice());
            Err(string_of(e.as_slice()))
        },
    }
}

} // verus!
