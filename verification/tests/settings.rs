use chronos_collector::settings::{
    accepts, begin_search, flag, get, go_on_searching, ini_name, parse_chronos_file,
    register_ini_entries, rejected_in_file, setting_names, short_key, starting_points,
    startup_flag, string, u32_value, u64_value, Sources, Start, Step, Table,
};

#[test]
fn short_keys_strip_both_prefixes() {
    assert_eq!(short_key("CHRONOS_PHP_APM_ENABLED"), "apm_enabled");
    assert_eq!(short_key("CHRONOS_APP_VERSION"), "app_version");
    assert_eq!(ini_name("CHRONOS_PHP_ENABLED"), "chronos.enabled");
}

#[test]
fn chronos_file_parses_dotenv_style() {
    let map = parse_chronos_file(
        "# identity\nCHRONOS_PHP_ORGANISATION=acme\nexport project = \"shop\"\napm_enabled='1'\n\nbroken line\n",
    );
    assert_eq!(map.get("CHRONOS_PHP_ORGANISATION").unwrap(), "acme");
    assert_eq!(map.get("project").unwrap(), "shop");
    assert_eq!(map.get("apm_enabled").unwrap(), "1");
    assert!(map.get("broken line").is_none());
}

#[test]
fn a_files_keys_also_stand_in_lower_case_and_the_last_line_wins() {
    let map = parse_chronos_file("ENABLED=0\r\nenabled = on\n=x\nquote=\"\nhalf='a\"");
    assert_eq!(map.get("enabled").unwrap(), "on");
    assert_eq!(map.get("ENABLED").unwrap(), "0");
    assert_eq!(map.get("quote").unwrap(), "\"");
    assert_eq!(map.get("half").unwrap(), "'a\"");
    assert!(map.get("").is_none());
}

fn sources(ini: &[(&str, &str)], file: &str) -> Sources {
    let mut table = Table::new();
    for (key, value) in ini {
        table.insert(key, value);
    }
    Sources { ini: table, file: parse_chronos_file(file) }
}

#[test]
fn the_environment_wins_over_ini_and_ini_over_the_file() {
    let s = sources(&[("chronos.env", "ini")], "env=file\nCHRONOS_PHP_ENV=full");
    assert_eq!(get(&s, Some("process"), "CHRONOS_PHP_ENV").as_deref(), Some("process"));
    assert_eq!(get(&s, Some(""), "CHRONOS_PHP_ENV").as_deref(), Some("ini"));
    let s = sources(&[("chronos.env", "")], "env=file\nCHRONOS_PHP_ENV=full");
    assert_eq!(get(&s, None, "CHRONOS_PHP_ENV").as_deref(), Some("full"));
    let s = sources(&[], "env=file");
    assert_eq!(get(&s, None, "CHRONOS_PHP_ENV").as_deref(), Some("file"));
    assert_eq!(get(&sources(&[], ""), None, "CHRONOS_PHP_ENV"), None);
}

#[test]
fn an_identity_from_the_file_must_be_shaped_like_one() {
    let s = sources(&[], "organisation=acme corp\nspool_directory=/var/../etc\nproject=shop-1.x_Y");
    assert_eq!(get(&s, None, "CHRONOS_PHP_ORGANISATION"), None);
    assert!(rejected_in_file(&s, "CHRONOS_PHP_ORGANISATION"));
    assert_eq!(get(&s, Some("acme corp"), "CHRONOS_PHP_ORGANISATION").as_deref(), Some("acme corp"));
    assert_eq!(get(&s, None, "CHRONOS_PHP_SPOOL_DIRECTORY"), None);
    assert_eq!(get(&s, None, "CHRONOS_PHP_PROJECT").as_deref(), Some("shop-1.x_Y"));
    assert!(!rejected_in_file(&s, "CHRONOS_PHP_PROJECT"));
    assert!(accepts("CHRONOS_PHP_TEAM_ID", &"t".repeat(128)));
    assert!(!accepts("CHRONOS_PHP_TEAM_ID", &"t".repeat(129)));
    assert!(!accepts("CHRONOS_PHP_TEAM_ID", ""));
    assert!(accepts("CHRONOS_PHP_SPOOL_DIRECTORY", "/var/lib/..hidden/x"));
    assert!(!accepts("CHRONOS_PHP_SPOOL_DIRECTORY", "var/lib"));
    assert!(accepts("CHRONOS_PHP_ENV", "any thing"));
}

#[test]
fn flags_and_numbers_fall_back_to_their_defaults() {
    let s = sources(&[], "apm_enabled=YES\nlogs_enabled=maybe\nspool_max_bytes=+12\ndst_call_path_max=-1");
    assert!(flag(&s, None, "CHRONOS_PHP_APM_ENABLED", false));
    assert!(!flag(&s, None, "CHRONOS_PHP_LOGS_ENABLED", true));
    assert!(flag(&s, None, "CHRONOS_PHP_PROFILER_ENABLED", true));
    assert_eq!(u32_value(&s, None, "CHRONOS_PHP_SPOOL_MAX_BYTES", 5), 12);
    assert_eq!(u64_value(&s, None, "CHRONOS_PHP_DST_CALL_PATH_MAX", 5), 5);
    assert_eq!(u32_value(&s, Some("4294967296"), "CHRONOS_PHP_SPOOL_MAX_BYTES", 5), 5);
    assert_eq!(u64_value(&s, Some("4294967296"), "CHRONOS_PHP_SPOOL_MAX_BYTES", 5), 4_294_967_296);
    assert_eq!(string(&s, None, "CHRONOS_PHP_PROFILE_SERIES_ID", "php"), "php");
}

#[test]
fn startup_does_not_read_the_file() {
    let s = sources(&[("chronos.enabled", "0")], "enabled=1");
    assert!(!startup_flag(&s.ini, None, "CHRONOS_PHP_ENABLED", true));
    assert!(startup_flag(&s.ini, Some("on"), "CHRONOS_PHP_ENABLED", false));
    assert!(startup_flag(&Table::new(), None, "CHRONOS_PHP_ENABLED", true));
}

#[test]
fn every_setting_has_its_directive() {
    let names = setting_names();
    let directives = register_ini_entries();
    assert_eq!(names.len(), directives.len());
    assert_eq!(names[0], "CHRONOS_PHP_ENABLED");
    assert_eq!(directives[0], "chronos.enabled");
    assert!(directives.iter().any(|d| d == "chronos.app_commit"));
    assert!(!directives.iter().any(|d| d == "chronos.runtime_metrics_enabled"));
}

#[test]
fn the_search_starts_at_the_root_then_the_script_then_the_working_directory() {
    assert_eq!(
        starting_points("/srv/app/public", "/srv/app/public/index.php", true, true),
        vec![Start::DocumentRoot, Start::ScriptDirectory, Start::WorkingDirectory]
    );
    assert_eq!(
        starting_points("", "/", false, true),
        vec![Start::Script, Start::WorkingDirectory]
    );
    assert_eq!(starting_points("/srv", "", true, false), vec![Start::DocumentRoot]);
    assert!(starting_points("", "", false, false).is_empty());
}

/// Run a search over what can be read at each start and above it.
fn search(walks: &[Vec<Option<&str>>]) -> (Option<String>, Vec<(usize, usize)>) {
    let known = [Start::DocumentRoot, Start::ScriptDirectory, Start::WorkingDirectory];
    let starts: Vec<Start> = known[..walks.len()].to_vec();
    let mut looked = Vec::new();
    let (mut from, mut level, mut read) = (0, 0, None);
    let mut step = begin_search(&starts);
    loop {
        match step {
            Step::From(place) => {
                from = place;
                level = 0;
            }
            Step::Above => level += 1,
            Step::Take => return (read, looked),
            Step::Stop => return (None, looked),
        }
        looked.push((from, level));
        read = walks[from][level].map(str::to_owned);
        step = go_on_searching(&starts, from, &read, level + 1 < walks[from].len());
    }
}

#[test]
fn the_nearest_readable_file_wins() {
    let (file, looked) = search(&[
        vec![None, None],
        vec![None, Some("near"), Some("far")],
        vec![Some("elsewhere")],
    ]);
    assert_eq!(file.as_deref(), Some("near"));
    assert_eq!(looked, vec![(0, 0), (0, 1), (1, 0), (1, 1)]);
    let (file, _) = search(&[vec![None, None, Some("root")], vec![Some("script")]]);
    assert_eq!(file.as_deref(), Some("root"));
    let (file, looked) = search(&[vec![None], vec![None, None]]);
    assert_eq!(file, None);
    assert_eq!(looked, vec![(0, 0), (1, 0), (1, 1)]);
    assert_eq!(search(&[]), (None, Vec::new()));
}
