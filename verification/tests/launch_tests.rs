use openfusion_launcher::launch::{
    extract_env_vars_from_tokens, gen_launch_plan, launch_environment, get_launch_cmd_dbg_str, proton_launch_command,
    tokenize_launch_command, wine_launch_command, wine_profile_name, LaunchError,
};

fn strings(v: &[&str]) -> Vec<String> {
    v.iter().map(|s| s.to_string()).collect()
}

fn pairs(v: &[(&str, &str)]) -> Vec<(String, String)> {
    v.iter().map(|(a, b)| (a.to_string(), b.to_string())).collect()
}

#[test]
fn tokenize_splits_on_unquoted_spaces() {
    assert_eq!(tokenize_launch_command("wine game.exe --flag"), strings(&["wine", "game.exe", "--flag"]));
    assert_eq!(tokenize_launch_command("  x   y "), strings(&["x", "y"]));
    assert_eq!(tokenize_launch_command(""), Vec::<String>::new());
}

#[test]
fn tokenize_honours_quotes() {
    assert_eq!(tokenize_launch_command("\"a b\" 'c d' e\"f g\"h"), strings(&["a b", "c d", "ef gh"]));
    assert_eq!(tokenize_launch_command("'it\"s' \"it's\""), strings(&["it\"s", "it's"]));
    assert_eq!(tokenize_launch_command("\"\" x"), strings(&["x"]));
    assert_eq!(tokenize_launch_command("\"unclosed x"), strings(&["unclosed x"]));
}

#[test]
fn extract_env_vars_takes_out_assignments() {
    let mut tokens = strings(&["A=1", "prog", "=x", "B=2=3", "C=", "A=9", " =y"]);
    let env = extract_env_vars_from_tokens(&mut tokens);
    assert_eq!(tokens, strings(&["prog", "=x", " =y"]));
    assert_eq!(env, pairs(&[("A", "1"), ("B", "2"), ("C", ""), ("A", "9")]));
    let map: std::collections::HashMap<String, String> = env.into_iter().collect();
    assert_eq!(map.get("A").map(|s| s.as_str()), Some("9"));
    assert_eq!(map.len(), 3);
}

#[test]
fn launch_plan_fills_base_command() {
    let args = strings(&["-a", "b c"]);
    let plan = gen_launch_plan("/opt/ffrunner.exe", &args, "WINEPREFIX=/p wine {}", &Vec::new()).unwrap();
    assert_eq!(plan.words, strings(&["wine", "/opt/ffrunner.exe", "-a", "b", "c"]));
    assert_eq!(plan.env_vars, pairs(&[("WINEPREFIX", "/p")]));
}

#[test]
fn launch_plan_fills_environment_variables() {
    let env = pairs(&[("HOME", "/home/u"), ("HOME", "/other")]);
    let plan = gen_launch_plan("prog", &Vec::new(), "{HOME}/bin/run {}", &env).unwrap();
    assert_eq!(plan.words, strings(&["/home/u/bin/run", "prog"]));
    assert!(plan.env_vars.is_empty());
}

#[test]
fn launch_plan_errors() {
    let env = pairs(&[("X", "{")]);
    assert!(matches!(
        gen_launch_plan("p", &Vec::new(), "{NOPE} {}", &env),
        Err(LaunchError::MissingEnvVar(n)) if n == "NOPE"
    ));
    assert!(matches!(gen_launch_plan("p", &Vec::new(), "wine game", &env), Err(LaunchError::MissingBaseToken)));
    assert!(matches!(gen_launch_plan("p", &Vec::new(), "run {", &env), Err(LaunchError::MissingBaseToken)));
    assert!(matches!(
        gen_launch_plan("p", &Vec::new(), "{X} {}", &env),
        Err(LaunchError::MissingEnvVar(n)) if n == " {"
    ));
}

#[test]
fn launch_plan_fills_what_was_filled_in() {
    let env = pairs(&[("X", "{Y}"), ("Y", "val"), ("RUN", "wine {}")]);
    let plan = gen_launch_plan("p", &Vec::new(), "{X} {}", &env).unwrap();
    assert_eq!(plan.words, strings(&["val", "p"]));
    let plan = gen_launch_plan("p", &strings(&["a"]), "{RUN}", &env).unwrap();
    assert_eq!(plan.words, strings(&["wine", "p", "a"]));
}

#[test]
fn debug_string_shows_command_and_env() {
    let args = strings(&["a", "b"]);
    let envs = pairs(&[("K", "V"), ("L", "W")]);
    assert_eq!(get_launch_cmd_dbg_str("p", &args, &envs, true), "\"p\" a b\n\tK=V\n\tL=W");
    assert_eq!(get_launch_cmd_dbg_str("p", &args, &envs, false), "\"p\" a b");
}

#[test]
fn preset_commands_are_formatted() {
    assert_eq!(wine_launch_command("/usr/bin/wine"), "\"/usr/bin/wine\" {}");
    assert_eq!(wine_profile_name("/usr/bin/wine"), "Wine (/usr/bin/wine)");
    assert_eq!(
        proton_launch_command("/steam", "/p/proton"),
        "STEAM_COMPAT_CLIENT_INSTALL_PATH=\"/steam\" \"/p/proton\" run {}"
    );
}

#[test]
fn launch_environment_keeps_game_env_then_plan_env() {
    let base = vec![("A".to_string(), Some("1".to_string())), ("B".to_string(), Some("2".to_string()))];
    let plan = pairs(&[("B", "3"), ("C", "4")]);
    let (dir, envs) = launch_environment(Some("/game".to_string()), &base, &plan).unwrap();
    assert_eq!(dir, "/game");
    assert_eq!(envs, pairs(&[("A", "1"), ("B", "2"), ("B", "3"), ("C", "4")]));
    assert!(matches!(launch_environment(None, &base, &plan), Err(LaunchError::InvalidWorkingDirectory)));
    let removed = vec![("X".to_string(), None)];
    assert!(matches!(launch_environment(None, &removed, &plan), Err(LaunchError::InvalidWorkingDirectory)));
}
