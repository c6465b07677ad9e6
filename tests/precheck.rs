use btrust::precheck::{check_preconditions, is_mounted, Environment, Precondition};

fn env(privileged: bool, device_exists: bool, output_is_dir: bool, mounted: bool) -> Environment {
    Environment { privileged, device_exists, output_is_dir, mounted }
}

#[test]
fn mounted_device_wins_over_bad_output_dir() {
    assert_eq!(check_preconditions(&env(true, true, false, true)), Some(Precondition::Unmounted));
}

#[test]
fn checks_follow_a_fixed_order() {
    assert_eq!(check_preconditions(&env(false, false, false, true)), Some(Precondition::Privileged));
    assert_eq!(check_preconditions(&env(true, false, false, true)), Some(Precondition::DeviceExists));
    assert_eq!(check_preconditions(&env(true, true, false, false)), Some(Precondition::OutputIsDirectory));
    assert_eq!(check_preconditions(&env(true, true, true, false)), None);
}

#[test]
fn mount_table_is_scanned_line_by_line() {
    let table: Vec<char> = "/dev/sda1 / ext4 rw 0 0\n/dev/sdb2 /mnt btrfs rw 0 0\n".chars().collect();
    let dev: Vec<char> = "/dev/sdb2".chars().collect();
    let other: Vec<char> = "/dev/sdc1".chars().collect();
    let split: Vec<char> = "ext4 rw 0 0\n/dev".chars().collect();
    assert!(is_mounted(&table, &dev));
    assert!(!is_mounted(&table, &other));
    assert!(!is_mounted(&table, &split));
}
