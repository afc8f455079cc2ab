use wingsvd::log::{log_dir, log_path, rotate, FileOp, LogStep, KEEP, MAX_BYTES};

#[test]
fn lines_carry_the_time() {
    assert_eq!(
        wingsvd::log::write(true, Some(0), Some(1700000000), "hello"),
        LogStep::Append("[1700000000] hello\n".to_string())
    );
    assert_eq!(wingsvd::log::write(true, None, None, ""), LogStep::Append("[0] \n".to_string()));
}

#[test]
fn closed_log_is_left_alone() {
    assert_eq!(wingsvd::log::write(false, Some(MAX_BYTES), Some(1), "hello"), LogStep::Skip);
}

#[test]
fn full_log_is_rotated_first() {
    assert_eq!(MAX_BYTES, 256 * 1024);
    let line = "[1] x\n".to_string();
    assert_eq!(wingsvd::log::write(true, Some(MAX_BYTES), Some(1), "x"), LogStep::RotateAndAppend(line));
    let line = "[1] x\n".to_string();
    assert_eq!(wingsvd::log::write(true, Some(MAX_BYTES - 1), Some(1), "x"), LogStep::Append(line));
}

#[test]
fn log_files() {
    assert_eq!(log_dir(), "/data/adb/wingsvd");
    assert_eq!(log_path(0), "/data/adb/wingsvd/wingsvd.log");
    assert_eq!(log_path(KEEP), "/data/adb/wingsvd/wingsvd.log.3");
}

#[test]
fn rotation_moves_every_generation() {
    let name = |suffix: &str| format!("/data/adb/wingsvd/wingsvd.log{suffix}");
    assert_eq!(
        rotate(),
        vec![
            FileOp::Remove { path: name(".3") },
            FileOp::Rename { from: name(".2"), to: name(".3"), checked: true },
            FileOp::Rename { from: name(".1"), to: name(".2"), checked: true },
            FileOp::Rename { from: name(""), to: name(".1"), checked: false },
        ]
    );
}

#[test]
fn rotation_drops_only_the_oldest() {
    let mut files = vec![
        (log_path(0), "new"),
        (log_path(1), "one"),
        (log_path(2), "two"),
        (log_path(3), "three"),
        ("other".to_string(), "other"),
    ];
    for op in rotate() {
        match op {
            FileOp::Remove { path } => files.retain(|file| file.0 != path),
            FileOp::Rename { from, to, .. } => {
                files.retain(|file| file.0 != to);
                for file in files.iter_mut() {
                    if file.0 == from {
                        file.0 = to.clone();
                    }
                }
            }
        }
    }
    files.sort();
    assert_eq!(
        files,
        vec![
            (log_path(1), "new"),
            (log_path(2), "one"),
            (log_path(3), "two"),
            ("other".to_string(), "other"),
        ]
    );
}

#[test]
fn active_file_stays_small() {
    let message = "x".repeat(1000);
    let mut size = 0u64;
    for secs in 0..2000 {
        match wingsvd::log::write(true, Some(size), Some(secs), &message) {
            LogStep::Append(line) => size += line.len() as u64,
            LogStep::RotateAndAppend(line) => size = line.len() as u64,
            LogStep::Skip => panic!("the log is open"),
        }
        assert!(size < MAX_BYTES + 1010);
    }
}
