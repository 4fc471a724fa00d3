use std::time::Duration;
use trolly_gym::orchestrator::{
    classify_job, daemon_sleep_secs, duration_secs_setting, git_sync_next, git_sync_start,
    insert_failed_error, job_slice_secs, local_session_id, parse_checkpoint_interval_secs,
    parse_date_fields, parse_hhmm, parse_mode, parse_weekdays, progress_log_body,
    select_train_jobs, window_budget, CheckpointClock, CheckpointTree, DeviceSpec, GitOutcome,
    GitStep, GitSyncAction, LocalTrainPrep, Mode, ModeChoice, TrainGap, TrainJob, WorkingHours,
    BROAD_GOAL, CONTINUE_TRAINING_LOCALLY, DEFAULT_CHECKPOINT_INTERVAL_SECS,
};

#[test]
fn default_window_is_weekday_nine_to_five() {
    let hours = WorkingHours::default();
    assert!(hours.contains(1, 9 * 60));
    assert!(hours.contains(5, 16 * 60 + 59));
    assert!(!hours.contains(5, 17 * 60));
    assert!(!hours.contains(6, 12 * 60));
    assert!(!hours.contains(1, 8 * 60 + 59));
}

#[test]
fn remaining_secs_inside_window() {
    let hours = WorkingHours::default();
    assert_eq!(hours.remaining_secs(2, 16 * 60), Some(60 * 60));
    assert_eq!(hours.remaining_secs(6, 12 * 60), None);
}

#[test]
fn wait_from_friday_evening_to_monday_morning() {
    let hours = WorkingHours::default();
    let secs = hours.secs_until_next_window(5, 18 * 60);
    assert_eq!(secs, (6 + 24 + 24 + 9) * 3600);
}

#[test]
fn wait_same_morning_before_start() {
    let hours = WorkingHours::default();
    assert_eq!(hours.secs_until_next_window(3, 8 * 60), 3600);
    assert_eq!(hours.secs_until_next_window(3, 10 * 60), 0);
}

#[test]
fn parse_device_and_hours() {
    assert_eq!(DeviceSpec::parse("auto"), Some(DeviceSpec::Auto));
    assert_eq!(DeviceSpec::parse("CUDA:1"), Some(DeviceSpec::Cuda(1)));
    assert_eq!(DeviceSpec::parse("rocm"), Some(DeviceSpec::Cuda(0)));
    assert_eq!(parse_hhmm("09:00"), Some(540));
    assert_eq!(parse_hhmm("1700"), Some(17 * 60));
    let days = parse_weekdays("1-5").unwrap();
    assert!(days[1] && days[5] && !days[6]);
    let days = parse_weekdays("1,3,5").unwrap();
    assert!(days[1] && days[3] && days[5] && !days[2]);
}

#[test]
fn parse_date_fields_iso() {
    assert_eq!(parse_date_fields("4 20 16"), Some((4, 20 * 60 + 16)));
}

#[test]
fn empty_tree_trains_microstructure_then_matrix() {
    let gap = select_train_jobs(None, &CheckpointTree::default());
    assert_eq!(gap.jobs, ["microstructure", "matrix"]);
    assert!(gap.reason.contains("stream-shaped"));
}

#[test]
fn incomplete_microstructure_focuses_budget() {
    let tree = CheckpointTree {
        microstructure_started: true,
        microstructure_complete: false,
        matrix_started: false,
    };
    let gap = select_train_jobs(None, &tree);
    assert_eq!(gap.jobs, ["microstructure"]);
}

#[test]
fn complete_microstructure_without_matrix_picks_nes_gate() {
    let tree = CheckpointTree {
        microstructure_started: false,
        microstructure_complete: true,
        matrix_started: false,
    };
    let gap = select_train_jobs(None, &tree);
    assert_eq!(gap.jobs, ["matrix"]);
}

#[test]
fn override_jobs_wins() {
    let gap = select_train_jobs(Some("matrix"), &CheckpointTree::default());
    assert_eq!(gap.jobs, ["matrix"]);
    assert_eq!(gap.reason, "TROLLY_TRAIN_JOBS override");
}

#[test]
fn progress_log_records_goal_and_jobs() {
    let gap = TrainGap {
        jobs: vec!["microstructure".into()],
        reason: "test slice".into(),
    };
    let body = progress_log_body("2026-08-14", &gap, &[("nes_dist", "0.12")]);
    assert!(body.contains(BROAD_GOAL));
    assert!(body.contains("microstructure"));
    assert!(body.contains("2026-08-14"));
    assert!(body.contains("0.12"));
}

#[test]
fn checkpoint_interval_defaults_and_zero() {
    assert_eq!(
        parse_checkpoint_interval_secs(None),
        Duration::from_secs(DEFAULT_CHECKPOINT_INTERVAL_SECS)
    );
    assert_eq!(
        parse_checkpoint_interval_secs(Some("")),
        Duration::from_secs(DEFAULT_CHECKPOINT_INTERVAL_SECS)
    );
    assert_eq!(
        parse_checkpoint_interval_secs(Some("bogus")),
        Duration::from_secs(DEFAULT_CHECKPOINT_INTERVAL_SECS)
    );
    assert_eq!(parse_checkpoint_interval_secs(Some("0")), Duration::ZERO);
    assert_eq!(
        parse_checkpoint_interval_secs(Some("120")),
        Duration::from_secs(120)
    );
}

#[test]
fn checkpoint_clock_zero_is_always_due() {
    let clock = CheckpointClock::new(Duration::ZERO);
    assert!(clock.due());
}

#[test]
fn checkpoint_clock_waits_for_interval() {
    let clock = CheckpointClock::new(Duration::from_secs(3600));
    assert!(!clock.due());
}

#[test]
fn continue_training_prompt_names_clickhouse_and_fingerprints() {
    assert!(CONTINUE_TRAINING_LOCALLY.contains("ClickHouse"));
    assert!(CONTINUE_TRAINING_LOCALLY.contains("bail if the DB is down"));
    assert!(CONTINUE_TRAINING_LOCALLY.contains("fingerprint"));
    assert!(CONTINUE_TRAINING_LOCALLY.contains("continue training locally"));
    assert!(CONTINUE_TRAINING_LOCALLY.contains("git fetch"));
    assert!(CONTINUE_TRAINING_LOCALLY.contains("@{u}"));
}

#[test]
fn every_valid_minute_waits_to_an_open_window() {
    let hours = WorkingHours::default();
    for wd in 1u8..=7 {
        for m in (0u16..1440).step_by(7) {
            let secs = hours.secs_until_next_window(wd, m);
            assert_eq!(secs == 0, hours.contains(wd, m));
            assert_eq!(secs % 60, 0);
            let total = m as u64 + secs / 60;
            let day = ((wd as u64 - 1 + total / 1440) % 7 + 1) as u8;
            let minute = (total % 1440) as u16;
            assert!(hours.contains(day, minute), "wd={wd} m={m}");
            for t in 0..secs / 60 {
                let total = m as u64 + t;
                let day = ((wd as u64 - 1 + total / 1440) % 7 + 1) as u8;
                let minute = (total % 1440) as u16;
                assert!(!hours.contains(day, minute));
            }
        }
    }
}

#[test]
fn next_window_without_enabled_days_is_one_day() {
    let hours = WorkingHours {
        start_minutes: 540,
        end_minutes: 1020,
        weekdays: [false; 8],
    };
    assert_eq!(hours.secs_until_next_window(3, 600), 24 * 3600);
}

#[test]
fn weekend_only_schedule_waits_across_the_week() {
    let hours = WorkingHours::from_env(Some("10:30"), Some("12:00"), Some("6,7"));
    assert_eq!(hours.start_minutes, 630);
    assert_eq!(hours.end_minutes, 720);
    assert!(hours.weekdays[6] && hours.weekdays[7] && !hours.weekdays[1]);
    assert_eq!(hours.secs_until_next_window(7, 13 * 60), ((24 - 13) * 60 + 5 * 1440 + 630) * 60);
    assert_eq!(hours.secs_until_next_window(6, 10 * 60), 30 * 60);
}

#[test]
fn hours_from_env_keep_defaults_on_bad_values() {
    let hours = WorkingHours::from_env(Some("25:00"), None, Some("0-3"));
    assert_eq!(hours, WorkingHours::default());
    let hours = WorkingHours::from_env(None, Some("1815"), Some(" 2-4 "));
    assert_eq!(WorkingHours::from_env(None, None, Some("2 - 4")).weekdays, WorkingHours::default().weekdays);
    assert_eq!(hours.end_minutes, 18 * 60 + 15);
    assert!(hours.weekdays[2] && hours.weekdays[3] && hours.weekdays[4] && !hours.weekdays[5]);
}

#[test]
fn parsers_reject_out_of_range_values() {
    assert_eq!(parse_hhmm("24:00"), None);
    assert_eq!(parse_hhmm("12:60"), None);
    assert_eq!(parse_hhmm(" 07:05 "), Some(425));
    assert_eq!(parse_hhmm("nope"), None);
    assert_eq!(parse_weekdays("5-1"), None);
    assert_eq!(parse_weekdays("1,8"), None);
    assert_eq!(parse_date_fields("8 10 10"), None);
    assert_eq!(parse_date_fields("1 24 00"), None);
    assert_eq!(parse_date_fields("7 23 59"), Some((7, 23 * 60 + 59)));
}

#[test]
fn device_spec_text_round_trips() {
    for spec in [DeviceSpec::Auto, DeviceSpec::Cpu, DeviceSpec::Cuda(0), DeviceSpec::Cuda(12)] {
        assert_eq!(DeviceSpec::parse(&spec.to_string()), Some(spec));
    }
    assert_eq!(DeviceSpec::parse(""), Some(DeviceSpec::Auto));
    assert_eq!(DeviceSpec::parse("cuda:x"), None);
    assert_eq!(DeviceSpec::parse("tpu"), None);
    assert_eq!(DeviceSpec::from_env(Some("tpu")), DeviceSpec::Auto);
    assert_eq!(DeviceSpec::from_env(None), DeviceSpec::Auto);
    assert_eq!(DeviceSpec::from_env(Some(" HIP ")), DeviceSpec::Cuda(0));
}

#[test]
fn override_list_is_trimmed_lowercased_and_never_empty() {
    let gap = select_train_jobs(Some(" Matrix , ,MICROSTRUCTURE"), &CheckpointTree::default());
    assert_eq!(gap.jobs, ["matrix", "microstructure"]);
    let gap = select_train_jobs(Some(" , "), &CheckpointTree::default());
    assert_eq!(gap.jobs, ["microstructure", "matrix"]);
    let tree = CheckpointTree {
        microstructure_started: true,
        microstructure_complete: true,
        matrix_started: true,
    };
    let gap = select_train_jobs(None, &tree);
    assert_eq!(gap.jobs, ["microstructure", "matrix"]);
    assert!(gap.reason.starts_with("both tracks exist"));
}

#[test]
fn progress_body_escapes_text_and_keeps_json_values_raw() {
    let gap = TrainGap {
        jobs: vec!["matrix".into(), "microstructure".into()],
        reason: "say \"hi\" \\ bye".into(),
    };
    let body = progress_log_body("d", &gap, &[("n", " 12e3 "), ("s", "text"), ("o", "{\"a\":1}")]);
    let expected = format!(
        "{{\n  \"goal\": \"{BROAD_GOAL}\",\n  \"date\": \"d\",\n  \"jobs\": [\"matrix\", \"microstructure\"],\n  \"reason\": \"say \\\"hi\\\" \\\\ bye\",\n  \"n\": 12e3,\n  \"s\": \"text\",\n  \"o\": {{\"a\":1}}\n}}\n"
    );
    assert_eq!(body, expected);
}

#[test]
fn clock_from_env_and_mark() {
    let mut clock = CheckpointClock::from_env(Some("0"));
    assert_eq!(clock.interval, Duration::ZERO);
    assert!(clock.due());
    clock.mark();
    assert!(clock.due());
    let clock = CheckpointClock::from_env(None);
    assert_eq!(clock.interval, Duration::from_secs(60));
}

fn outcome(ran: bool, success: bool, detail: &str) -> GitOutcome {
    GitOutcome {
        ran,
        success,
        detail: detail.into(),
    }
}

#[test]
fn git_sync_walks_fetch_diff_upstream_rebase() {
    let mut step = git_sync_start();
    assert_eq!(step, GitStep::CheckWorkTree);
    let order = [
        GitStep::Fetch,
        GitStep::DiffQuiet,
        GitStep::DiffCachedQuiet,
        GitStep::CheckUpstream,
        GitStep::Rebase,
    ];
    for expected in order.clone() {
        match git_sync_next(&step, &outcome(true, true, "")) {
            GitSyncAction::Run(next) => {
                assert_eq!(next, expected);
                step = next;
            }
            other => panic!("unexpected {other:?}"),
        }
    }
    assert_eq!(
        git_sync_next(&step, &outcome(true, true, "")),
        GitSyncAction::Finish("fetched origin; rebased onto @{u}".into())
    );
    for step in order {
        for arg in step.args() {
            assert!(arg != "reset" && arg != "--hard" && arg != "-i" && arg != "--interactive");
        }
    }
}

#[test]
fn git_sync_stops_on_dirty_tree_and_aborts_failed_rebase() {
    assert_eq!(
        git_sync_next(&GitStep::DiffQuiet, &outcome(true, false, "")),
        GitSyncAction::Finish(
            "warn: uncommitted changes; fetched but skipping rebase so local work is not destroyed"
                .into()
        )
    );
    assert_eq!(
        git_sync_next(&GitStep::CheckWorkTree, &outcome(false, false, "no git")),
        GitSyncAction::Finish("warn: not a git work tree; skipping fetch".into())
    );
    assert_eq!(
        git_sync_next(&GitStep::Fetch, &outcome(true, false, "  offline \n")),
        GitSyncAction::Finish(
            "warn: git fetch origin failed (offline); continuing with local tree".into()
        )
    );
    let abort = git_sync_next(&GitStep::Rebase, &outcome(true, false, " conflict "));
    let note = "warn: git rebase @{u} failed (conflict); aborted rebase and continuing";
    assert_eq!(abort, GitSyncAction::Run(GitStep::AbortRebase(note.into())));
    assert_eq!(
        GitStep::AbortRebase(note.into()).args(),
        vec!["rebase".to_string(), "--abort".to_string()]
    );
    assert_eq!(
        git_sync_next(&GitStep::AbortRebase(note.into()), &outcome(true, true, "")),
        GitSyncAction::Finish(note.into())
    );
}

#[test]
fn mode_reads_env_then_last_option() {
    let args = |xs: &[&str]| xs.iter().map(|s| s.to_string()).collect::<Vec<_>>();
    assert_eq!(parse_mode(None, &args(&[])), ModeChoice::Run(Mode::Once));
    assert_eq!(parse_mode(Some("TRUE"), &args(&["--probe"])), ModeChoice::Run(Mode::Continue));
    assert_eq!(parse_mode(Some("0"), &args(&["--daemon", "--probe"])), ModeChoice::Run(Mode::Probe));
    assert_eq!(parse_mode(None, &args(&["--continue-local"])), ModeChoice::Run(Mode::Continue));
    assert_eq!(parse_mode(None, &args(&["-h", "--bogus"])), ModeChoice::Help);
    assert_eq!(
        parse_mode(None, &args(&["--once", "--bogus", "-h"])),
        ModeChoice::Unknown("--bogus".into())
    );
}

#[test]
fn slice_budget_arithmetic() {
    assert_eq!(window_budget(3600, None), 3600);
    assert_eq!(window_budget(3600, Some(120)), 120);
    assert_eq!(window_budget(60, Some(120)), 60);
    assert_eq!(window_budget(0, None), 1);
    assert_eq!(job_slice_secs(120, 2), 60);
    assert_eq!(job_slice_secs(1, 2), 1);
    assert_eq!(daemon_sleep_secs(0), 1);
    assert_eq!(daemon_sleep_secs(90_000), 3600);
    assert_eq!(daemon_sleep_secs(42), 42);
    assert_eq!(duration_secs_setting(Some("+30")), Some(30));
    assert_eq!(duration_secs_setting(Some(" 30")), None);
    assert_eq!(duration_secs_setting(None), None);
}

#[test]
fn jobs_classify_or_name_the_unknown_entry() {
    assert_eq!(classify_job("matrix"), Ok(TrainJob::Matrix));
    assert_eq!(classify_job("microstructure"), Ok(TrainJob::Microstructure));
    assert_eq!(
        classify_job("rl"),
        Err("unknown TROLLY_TRAIN_JOBS entry: rl".to_string())
    );
}

#[test]
fn local_training_records_and_errors() {
    assert_eq!(local_session_id(Some("20260814T101500\n")), "sim-SYNTHUSDT-20260814T101500");
    assert_eq!(local_session_id(Some("  ")), "sim-SYNTHUSDT-local");
    assert_eq!(local_session_id(None), "sim-SYNTHUSDT-local");
    let prep = LocalTrainPrep::inserted("sim-SYNTHUSDT-x", 64, "abc");
    assert_eq!(prep.note, "inserted+reloaded 64 ticks session=sim-SYNTHUSDT-x");
    assert!(prep.clickhouse_ok);
    assert_eq!(prep.ticks_written, 64);
    assert_eq!(
        insert_failed_error("http://h:8123", "boom"),
        "training bails: ClickHouse is reachable at http://h:8123 but insert failed (boom)"
    );
}

#[test]
fn clock_is_due_once_the_interval_has_passed() {
    let clock = CheckpointClock::new(Duration::from_secs(60));
    assert!(!clock.due_after(Duration::from_millis(59_999)));
    assert!(clock.due_after(Duration::from_secs(60)));
    assert!(clock.due_after(Duration::from_secs(61)));
    let zero = CheckpointClock::new(Duration::ZERO);
    assert!(zero.due_after(Duration::ZERO));
}

#[test]
fn clock_counts_from_construction_then_from_each_mark() {
    let t0 = std::time::Instant::now();
    let mut clock = CheckpointClock::new_at(Duration::from_secs(60), t0);
    assert_eq!(*clock.since(), t0);
    assert!(!clock.due_at(t0 + Duration::from_secs(59)));
    assert!(clock.due_at(t0 + Duration::from_secs(60)));
    let tm = t0 + Duration::from_secs(100);
    clock.mark_at(tm);
    assert_eq!(*clock.since(), tm);
    assert!(!clock.due_at(t0 + Duration::from_secs(150)));
    assert!(clock.due_at(t0 + Duration::from_secs(160)));
    assert!(!clock.due_at(t0));
    assert_eq!(clock.interval, Duration::from_secs(60));
}

#[test]
fn every_clock_time_reads_back_in_both_forms() {
    for h in 0..100u16 {
        for m in 0..100u16 {
            let expected = if h < 24 && m < 60 { Some(h * 60 + m) } else { None };
            assert_eq!(parse_hhmm(&format!("{:02}:{:02}", h, m)), expected);
            assert_eq!(parse_hhmm(&format!("{:02}{:02}", h, m)), expected);
            assert_eq!(parse_hhmm(&format!(" \t{:02}:{:02}\n", h, m)), expected);
        }
    }
}

#[test]
fn device_requests_ignore_case_and_surrounding_space() {
    assert_eq!(DeviceSpec::parse(" Cuda:3 \t"), Some(DeviceSpec::Cuda(3)));
    assert_eq!(DeviceSpec::parse("  HIP"), Some(DeviceSpec::Cuda(0)));
    assert_eq!(DeviceSpec::parse("   "), Some(DeviceSpec::Auto));
    assert_eq!(DeviceSpec::parse(" CPU "), Some(DeviceSpec::Cpu));
    assert_eq!(DeviceSpec::parse(" tpu"), None);
    assert_eq!(DeviceSpec::parse("cuda:x"), None);
}
