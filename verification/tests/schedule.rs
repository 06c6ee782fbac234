//! Schedules: how they are read, shown and fired.

use ai_agent_bridge::calendar::date_to_epoch_ms;
use ai_agent_bridge::codec::{kind_of_json, kind_to_json};
use ai_agent_bridge::json::Json;
use ai_agent_bridge::schedule::{
    checked_schedule_at, format_duration_ms, format_utc_ms, parse_duration_ms, parse_hh_mm,
    parse_schedule, plan_tick, ScheduleEntry, ScheduleKind,
};
use ai_agent_bridge::store::StateDb;
use ai_agent_bridge::types::{now_ms, ReplyCtx, SessionKey};

#[test]
fn parse_in_30m() {
    match parse_schedule("in 30m").unwrap() {
        ScheduleKind::Once { fire_at_ms } => {
            let diff = fire_at_ms - now_ms();
            assert!(diff > 29 * 60_000 && diff <= 30 * 60_000 + 500);
        }
        _ => panic!("expected Once"),
    }
}

#[test]
fn parse_in_2h() {
    match parse_schedule("in 2h").unwrap() {
        ScheduleKind::Once { fire_at_ms } => {
            let diff = fire_at_ms - now_ms();
            assert!(diff > 7_000_000 && diff <= 7_200_500);
        }
        _ => panic!("expected Once"),
    }
}

#[test]
fn parse_in_1d() {
    match parse_schedule("in 1d").unwrap() {
        ScheduleKind::Once { fire_at_ms } => {
            let diff = fire_at_ms - now_ms();
            assert!(diff > 86_000_000 && diff <= 86_400_500);
        }
        _ => panic!("expected Once"),
    }
}

#[test]
fn parse_in_90s() {
    match parse_schedule("in 90s").unwrap() {
        ScheduleKind::Once { fire_at_ms } => {
            let diff = fire_at_ms - now_ms();
            assert!(diff > 89_000 && diff <= 90_500);
        }
        _ => panic!("expected Once"),
    }
}

#[test]
fn parse_every_30m() {
    match parse_schedule("every 30m").unwrap() {
        ScheduleKind::Recurring { interval_ms, next_fire_ms } => {
            assert_eq!(interval_ms, 30 * 60_000);
            let diff = next_fire_ms - now_ms();
            assert!(diff > 0 && diff <= 30 * 60_000 + 500);
        }
        _ => panic!("expected Recurring"),
    }
}

#[test]
fn parse_every_1h() {
    match parse_schedule("every 1h").unwrap() {
        ScheduleKind::Recurring { interval_ms, .. } => {
            assert_eq!(interval_ms, 3_600_000);
        }
        _ => panic!("expected Recurring"),
    }
}

#[test]
fn parse_every_1d() {
    match parse_schedule("every 1d").unwrap() {
        ScheduleKind::Recurring { interval_ms, .. } => {
            assert_eq!(interval_ms, 86_400_000);
        }
        _ => panic!("expected Recurring"),
    }
}

#[test]
fn parse_every_day_0900() {
    match parse_schedule("every day 09:00").unwrap() {
        ScheduleKind::Recurring { interval_ms, next_fire_ms } => {
            assert_eq!(interval_ms, 86_400_000);
            assert!(next_fire_ms > now_ms());
        }
        _ => panic!("expected Recurring"),
    }
}

#[test]
fn parse_at_future_date() {
    match parse_schedule("at 2099-01-01 00:00").unwrap() {
        ScheduleKind::Once { fire_at_ms } => {
            assert!(fire_at_ms > now_ms());
        }
        _ => panic!("expected Once"),
    }
}

#[test]
fn parse_at_time_only() {
    match parse_schedule("at 23:59").unwrap() {
        ScheduleKind::Once { fire_at_ms } => {
            assert!(fire_at_ms > now_ms());
        }
        _ => panic!("expected Once"),
    }
}

#[test]
fn parse_at_past_date_errors() {
    let result = parse_schedule("at 2000-01-01 00:00");
    assert!(result.is_err());
}

#[test]
fn parse_invalid_format_errors() {
    assert!(parse_schedule("tomorrow 9am").is_err());
    assert!(parse_schedule("").is_err());
    assert!(parse_schedule("in").is_err());
    assert!(parse_schedule("in 0m").is_err());
    assert!(parse_schedule("in abc").is_err());
    assert!(parse_schedule("every").is_err());
}

#[test]
fn parse_invalid_time_errors() {
    assert!(parse_schedule("at 25:00").is_err());
    assert!(parse_schedule("at 12:61").is_err());
    assert!(parse_schedule("every day 25:00").is_err());
}

#[test]
fn schedule_kind_should_fire_once_past() {
    let kind = ScheduleKind::Once { fire_at_ms: now_ms() - 1000 };
    assert!(kind.should_fire(now_ms()));
}

#[test]
fn schedule_kind_should_fire_once_future() {
    let kind = ScheduleKind::Once { fire_at_ms: now_ms() + 60_000 };
    assert!(!kind.should_fire(now_ms()));
}

#[test]
fn schedule_kind_should_fire_recurring() {
    let mut kind = ScheduleKind::Recurring { interval_ms: 60_000, next_fire_ms: now_ms() - 1000 };
    assert!(kind.should_fire(now_ms()));
    kind.advance();
    match &kind {
        ScheduleKind::Recurring { next_fire_ms, .. } => {
            assert!(*next_fire_ms > now_ms());
        }
        _ => panic!(),
    }
}

#[test]
fn schedule_kind_is_once() {
    assert!(ScheduleKind::Once { fire_at_ms: 0 }.is_once());
    assert!(!ScheduleKind::Recurring { interval_ms: 1000, next_fire_ms: 0 }.is_once());
}

#[test]
fn format_duration_ms_display() {
    assert_eq!(format_duration_ms(60_000), "1 minute");
    assert_eq!(format_duration_ms(120_000), "2 minutes");
    assert_eq!(format_duration_ms(3_600_000), "1 hour");
    assert_eq!(format_duration_ms(7_200_000), "2 hours");
    assert_eq!(format_duration_ms(86_400_000), "1 day");
    assert_eq!(format_duration_ms(172_800_000), "2 days");
    assert_eq!(format_duration_ms(90_000), "90 seconds");
}

#[test]
fn format_utc_ms_known_epoch() {
    let s = format_utc_ms(1_735_689_600_000);
    assert_eq!(s, "2025-01-01 00:00 UTC");
}

#[test]
fn date_to_epoch_ms_round_trips() {
    assert_eq!(date_to_epoch_ms(1970, 1, 1, 0, 0), 0);
    assert_eq!(date_to_epoch_ms(2000, 1, 1, 0, 0), 946_684_800_000);
}

fn entry(id: &str, schedule: ScheduleKind) -> ScheduleEntry {
    ScheduleEntry {
        id: id.into(),
        key: SessionKey::new("t", "u1"),
        prompt: "hello".into(),
        reply_ctx: ReplyCtx::default(),
        schedule,
        created_at_ms: 0,
        last_fired_ms: None,
    }
}

#[test]
fn display_schedule_once() {
    let s = entry("test", ScheduleKind::Once { fire_at_ms: 1_735_689_600_000 }).display_schedule();
    assert!(s.contains("once at"));
    assert!(s.contains("2025-01-01"));
}

#[test]
fn display_schedule_recurring() {
    let s = entry(
        "test",
        ScheduleKind::Recurring { interval_ms: 3_600_000, next_fire_ms: 1_735_689_600_000 },
    )
    .display_schedule();
    assert!(s.contains("every 1 hour"));
    assert!(s.contains("next:"));
}

#[test]
fn parse_duration_ms_all_units() {
    assert_eq!(parse_duration_ms("10s").unwrap(), 10_000);
    assert_eq!(parse_duration_ms("5m").unwrap(), 300_000);
    assert_eq!(parse_duration_ms("2h").unwrap(), 7_200_000);
    assert_eq!(parse_duration_ms("1d").unwrap(), 86_400_000);
}

#[test]
fn parse_duration_ms_errors() {
    assert!(parse_duration_ms("").is_err());
    assert!(parse_duration_ms("0m").is_err());
    assert!(parse_duration_ms("abc").is_err());
    assert!(parse_duration_ms("10x").is_err());
}

#[test]
fn parse_hh_mm_valid() {
    assert_eq!(parse_hh_mm("09:00").unwrap(), (9, 0));
    assert_eq!(parse_hh_mm("23:59").unwrap(), (23, 59));
    assert_eq!(parse_hh_mm("00:00").unwrap(), (0, 0));
}

#[test]
fn parse_hh_mm_invalid() {
    assert!(parse_hh_mm("24:00").is_err());
    assert!(parse_hh_mm("12:60").is_err());
    assert!(parse_hh_mm("1200").is_err());
    assert!(parse_hh_mm("ab:cd").is_err());
}

#[test]
fn serde_round_trip_once() {
    let kind = ScheduleKind::Once { fire_at_ms: 1_000_000 };
    let json = kind_to_json(&kind).to_text();
    let back = kind_of_json(&Json::of_text(&json).unwrap()).unwrap();
    assert!(matches!(back, ScheduleKind::Once { fire_at_ms: 1_000_000 }));
}

#[test]
fn serde_round_trip_recurring() {
    let kind = ScheduleKind::Recurring { interval_ms: 60_000, next_fire_ms: 2_000_000 };
    let json = kind_to_json(&kind).to_text();
    match kind_of_json(&Json::of_text(&json).unwrap()).unwrap() {
        ScheduleKind::Recurring { interval_ms, next_fire_ms } => {
            assert_eq!(interval_ms, 60_000);
            assert_eq!(next_fire_ms, 2_000_000);
        }
        _ => panic!("expected Recurring"),
    }
}

#[test]
fn serde_round_trip_entry() {
    let key = SessionKey::new("line", "U1234");
    let entry = ScheduleEntry {
        id: "abc-123".into(),
        key: key.clone(),
        prompt: "check status".into(),
        reply_ctx: ReplyCtx::default(),
        schedule: ScheduleKind::Recurring {
            interval_ms: 3_600_000,
            next_fire_ms: 1_700_000_000_000,
        },
        created_at_ms: 1_699_000_000_000,
        last_fired_ms: None,
    };
    let mut db = StateDb::in_memory().ok().unwrap();
    assert!(db.add_schedule(&entry).is_ok());
    let all = db.list_all_schedules();
    assert_eq!(all.len(), 1);
    let back = &all[0];
    assert_eq!(back.id, "abc-123");
    assert_eq!(back.key, SessionKey::new("line", "U1234"));
    assert_eq!(back.prompt, "check status");
    assert_eq!(back.schedule, entry.schedule);
    assert_eq!(back.created_at_ms, 1_699_000_000_000);
}

#[test]
fn times_of_day_are_today_or_tomorrow() {
    // 2025-01-01 10:00 UTC.
    let now = 1_735_725_600_000;
    assert_eq!(
        checked_schedule_at("at 11:30", now).unwrap(),
        ScheduleKind::Once { fire_at_ms: now + 5_400_000 }
    );
    assert_eq!(
        checked_schedule_at("every day 09:00", now).unwrap(),
        ScheduleKind::Recurring { interval_ms: 86_400_000, next_fire_ms: now + 82_800_000 }
    );
    assert_eq!(
        checked_schedule_at("at 2025-03-01 00:00", now).unwrap(),
        ScheduleKind::Once { fire_at_ms: 1_740_787_200_000 }
    );
}

#[test]
fn schedules_beyond_the_clock_are_refused() {
    assert_eq!(
        checked_schedule_at("at 999999999-01-01 00:00", 1_735_725_600_000),
        Err("schedule is out of range".to_string())
    );
}

#[test]
fn due_entries_fire_and_are_settled() {
    let now = 1_000_000;
    let entries = vec![
        entry("once", ScheduleKind::Once { fire_at_ms: 999_000 }),
        entry("later", ScheduleKind::Once { fire_at_ms: 1_000_001 }),
        entry("often", ScheduleKind::Recurring { interval_ms: 60_000, next_fire_ms: 1_000_000 }),
    ];
    let plan = plan_tick(&entries, now);
    assert_eq!(plan.fire.len(), 2);
    assert_eq!(plan.fire[0].text, "hello");
    assert_eq!(plan.fire[0].timestamp_ms, 0);
    assert_eq!(plan.completed, vec!["once".to_string()]);
    assert_eq!(
        plan.moved,
        vec![(
            "often".to_string(),
            ScheduleKind::Recurring { interval_ms: 60_000, next_fire_ms: 1_060_000 }
        )]
    );
}

#[test]
fn clock_times_are_the_next() {
    // 2025-01-01 10:00 UTC.
    let now = 1_735_725_600_000;
    assert_eq!(
        checked_schedule_at("at 10:00", now).unwrap(),
        ScheduleKind::Once { fire_at_ms: now + 86_400_000 }
    );
    assert_eq!(
        checked_schedule_at("at 10:01", now).unwrap(),
        ScheduleKind::Once { fire_at_ms: now + 60_000 }
    );
    assert_eq!(
        checked_schedule_at("every day 23:59", now).unwrap(),
        ScheduleKind::Recurring { interval_ms: 86_400_000, next_fire_ms: now + 50_340_000 }
    );
    assert_eq!(
        checked_schedule_at("at 00:00", now).unwrap(),
        ScheduleKind::Once { fire_at_ms: now + 50_400_000 }
    );
}

#[test]
fn schedules_are_read_from_lists() {
    let read = |raw: &str| kind_of_json(&Json::of_text(raw).unwrap());
    assert_eq!(read(r#"["once",5]"#), Some(ScheduleKind::Once { fire_at_ms: 5 }));
    assert_eq!(
        read(r#"["recurring",60000,7]"#),
        Some(ScheduleKind::Recurring { interval_ms: 60_000, next_fire_ms: 7 })
    );
    assert_eq!(read(r#"["recurring",60000]"#), None);
    assert_eq!(read(r#"["once",5,6]"#), None);
}
