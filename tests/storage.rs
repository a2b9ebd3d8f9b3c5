use notedeck_i18n::{most_recent_index, BaseDir, DataPaths, Directory, LastLines};

#[test]
fn data_paths_segments_and_bases() {
    assert_eq!(DataPaths::Log.segments(), vec!["notedeck", "logs"]);
    assert_eq!(DataPaths::Setting.segments(), vec!["notedeck", "settings"]);
    assert_eq!(DataPaths::Keys.segments(), vec!["notedeck", "storage", "accounts"]);
    assert_eq!(DataPaths::SelectedKey.segments(), vec!["notedeck", "storage", "selected_account"]);
    assert_eq!(DataPaths::Log.base_dir(), BaseDir::DataLocal);
    assert_eq!(DataPaths::Keys.base_dir(), BaseDir::ConfigLocal);
}

#[test]
fn directory_keeps_its_path() {
    let d = Directory::new(std::path::PathBuf::from("/tmp/x"));
    assert_eq!(d.file_path, std::path::PathBuf::from("/tmp/x"));
}

#[test]
fn last_lines_keeps_the_tail() {
    let mut t = LastLines::new(2);
    for line in ["a", "b", "c"] {
        t.push_line(line.to_string());
    }
    let r = t.finish();
    assert_eq!(r.output, "b\nc");
    assert_eq!(r.output_num_lines, 2);
    assert_eq!(r.total_lines_in_file, 3);
}

#[test]
fn last_lines_with_fewer_lines_than_the_limit() {
    let mut t = LastLines::new(5);
    t.push_line("only".to_string());
    let r = t.finish();
    assert_eq!(r.output, "only");
    assert_eq!(r.output_num_lines, 1);
    assert_eq!(r.total_lines_in_file, 1);
    let r = LastLines::new(0).finish();
    assert_eq!(r.output, "");
    assert_eq!(r.output_num_lines, 0);
}

#[test]
fn most_recent_picks_first_of_latest() {
    assert_eq!(most_recent_index(&vec![]), None);
    assert_eq!(most_recent_index(&vec![3, 9, 2, 9]), Some(1));
    assert_eq!(most_recent_index(&vec![5]), Some(0));
}
