use medusa::cache::{
    create_cache_content, format_unalias_cmd_string, get_cached_cwd, get_current_set_aliases,
    load_cache, CACHE_KEY,
};
use medusa::config::{format_execs_as_alias_cmd_string, get_executables_from_config_file, Executable};
use medusa::error::{check_invariant, MedusaError};
use medusa::resolver::{resolve, run, ResolvedAction};
use medusa::session::{cache_file_path_for, decimal_string, get_cache_file, CACHE_DIR};
use medusa::subtree::{get_is_subdirectory_of_cached_cwd, is_within};
use medusa::text::{has_prefix, join_strings, split_text};

fn exec(key: &str, value: &str) -> Executable {
    Executable { key: key.to_string(), value: value.to_string() }
}

#[test]
fn example_install_single_alias() {
    let o = run(None, "/home/u/proj", Some("ll=ls -la")).unwrap();
    assert_eq!(o.output, "alias ll=\"ls -la\"");
    assert_eq!(o.cache_content, Some("__session_cwd_key__=/home/u/proj\nll".to_string()));
}

#[test]
fn example_remove_after_leaving() {
    let cache = "__session_cwd_key__=/home/u/proj\ngs";
    let o = run(Some(cache), "/home/u/other", Some("x=echo hi")).unwrap();
    assert_eq!(o.output, "unalias gs");
    assert_eq!(o.cache_content, None);
}

#[test]
fn example_install_in_subdirectory() {
    let cache = "__session_cwd_key__=/home/u/proj\ngs";
    let a = resolve(Some(cache), "/home/u/proj/sub", Some("x=echo hi")).unwrap();
    match a {
        ResolvedAction::Install(d) => {
            assert_eq!(d.len(), 1);
            assert_eq!(d[0].key, "x");
            assert_eq!(d[0].value, "echo hi");
        }
        other => panic!("expected an installation, got {:?}", other),
    }
    let o = run(Some(cache), "/home/u/proj/sub", Some("x=echo hi")).unwrap();
    assert_eq!(o.output, "alias x=\"echo hi\"");
    assert_eq!(o.cache_content, Some("__session_cwd_key__=/home/u/proj/sub\nx".to_string()));
}

#[test]
fn install_counts_lines_and_clauses() {
    let config = "a=1\nb=two words\n\nc=x y z\n";
    let o = run(None, "/p", Some(config)).unwrap();
    assert_eq!(o.output, "alias a=\"1\"; alias b=\"two words\"; alias c=\"x y z\"");
    let content = o.cache_content.unwrap();
    assert_eq!(content.split('\n').count(), 4);
    assert_eq!(content, "__session_cwd_key__=/p\na\nb\nc");
}

#[test]
fn install_twice_is_identical() {
    let config = "ll=ls -la\ngs=git status";
    let first = run(None, "/home/u/proj", Some(config)).unwrap();
    let written = first.cache_content.clone().unwrap();
    let second = run(Some(&written), "/home/u/proj", Some(config)).unwrap();
    assert_eq!(first.output, second.output);
    assert_eq!(first.cache_content, second.cache_content);
}

#[test]
fn nothing_without_cache_or_config() {
    let o = run(None, "/home/u", None).unwrap();
    assert_eq!(o.output, "");
    assert_eq!(o.cache_content, None);
    assert!(matches!(resolve(None, "/home/u", None), Ok(ResolvedAction::NoOp)));
}

#[test]
fn no_config_inside_cached_tree_does_nothing() {
    let cache = "__session_cwd_key__=/home/u/proj\ngs";
    let o = run(Some(cache), "/home/u/proj/deeper", None).unwrap();
    assert_eq!(o.output, "");
    assert_eq!(o.cache_content, None);
}

#[test]
fn line_without_delimiter_fails() {
    match run(None, "/p", Some("ok=1\nbroken")) {
        Err(MedusaError::MalformedConfig(l)) => assert_eq!(l, "broken"),
        other => panic!("expected a malformed config, got {:?}", other),
    }
}

#[test]
fn line_with_two_delimiters_fails() {
    match get_executables_from_config_file("a=b=c\nd") {
        Err(MedusaError::MalformedConfig(l)) => assert_eq!(l, "a=b=c"),
        other => panic!("expected a malformed config, got {:?}", other),
    }
}

#[test]
fn malformed_config_ignored_when_removing() {
    let cache = "__session_cwd_key__=/a\nq";
    let o = run(Some(cache), "/b", Some("broken")).unwrap();
    assert_eq!(o.output, "unalias q");
    assert_eq!(o.cache_content, None);
}

#[test]
fn config_keeps_order_and_skips_empty_lines() {
    let d = get_executables_from_config_file("\nz=1\n\na=2\n").unwrap();
    assert_eq!(d.len(), 2);
    assert_eq!((d[0].key.as_str(), d[0].value.as_str()), ("z", "1"));
    assert_eq!((d[1].key.as_str(), d[1].value.as_str()), ("a", "2"));
    assert_eq!(get_executables_from_config_file("").unwrap().len(), 0);
}

#[test]
fn empty_name_or_command_is_accepted() {
    let d = get_executables_from_config_file("=x\ny=").unwrap();
    assert_eq!((d[0].key.as_str(), d[0].value.as_str()), ("", "x"));
    assert_eq!((d[1].key.as_str(), d[1].value.as_str()), ("y", ""));
}

#[test]
fn alias_text_keeps_quotes_verbatim() {
    let s = format_execs_as_alias_cmd_string(vec![exec("e", "echo \"hi\""), exec("l", "ls")]);
    assert_eq!(s, "alias e=\"echo \"hi\"\"; alias l=\"ls\"");
    assert_eq!(format_execs_as_alias_cmd_string(vec![]), "");
}

#[test]
fn unalias_text() {
    let names = vec!["a".to_string(), "b".to_string()];
    assert_eq!(format_unalias_cmd_string(&names), "unalias a; unalias b");
    assert_eq!(format_unalias_cmd_string(&vec![]), "");
}

#[test]
fn cache_reads_directory_and_names() {
    let c = load_cache("__session_cwd_key__=/x/y\nn1\nn2").unwrap();
    assert_eq!(c.directory, "/x/y");
    assert_eq!(c.alias_names, vec!["n1".to_string(), "n2".to_string()]);
    assert_eq!(get_cached_cwd("__session_cwd_key__=/a=b").unwrap(), "/a=b");
    assert_eq!(
        get_current_set_aliases("__session_cwd_key__=/x\ngs\nll").unwrap(),
        vec!["unalias gs".to_string(), "unalias ll".to_string()]
    );
}

#[test]
fn cache_without_record_is_malformed() {
    assert!(matches!(load_cache(""), Err(MedusaError::MalformedCache)));
    assert!(matches!(load_cache("gs\n__session_cwd_key__=/x"), Err(MedusaError::MalformedCache)));
    assert!(matches!(load_cache("__session_cwd_key__/x"), Err(MedusaError::MalformedCache)));
    assert!(matches!(get_cached_cwd("other=/x"), Err(MedusaError::MalformedCache)));
}

#[test]
fn cache_with_second_record_is_malformed() {
    let t = "__session_cwd_key__=/x\nls\n__session_cwd_key__=/y";
    assert!(matches!(load_cache(t), Err(MedusaError::MalformedCache)));
    assert!(matches!(get_current_set_aliases(t), Err(MedusaError::MalformedCache)));
    assert!(matches!(run(Some(t), "/x", None), Err(MedusaError::MalformedCache)));
}

#[test]
fn cache_content_layout() {
    let c = create_cache_content("/w", &vec![exec("a", "1"), exec("b", "2")]);
    assert_eq!(c, "__session_cwd_key__=/w\na\nb");
    assert_eq!(create_cache_content("/w", &vec![]), "__session_cwd_key__=/w");
    assert_eq!(CACHE_KEY, "__session_cwd_key__");
}

#[test]
fn subtree_rules() {
    assert!(is_within("/home/u/proj", "/home/u/proj"));
    assert!(is_within("/home/u/proj/sub", "/home/u/proj"));
    assert!(is_within("/home/u/proj/a/b", "/home/u/proj"));
    assert!(!is_within("/home/u/project", "/home/u/proj"));
    assert!(!is_within("/home/u/other", "/home/u/proj"));
    assert!(!is_within("/home/u", "/home/u/proj"));
    assert!(is_within("/anything", "/"));
    assert!(is_within("/", "/"));
}

#[test]
fn subdirectory_of_cached_cwd() {
    assert!(get_is_subdirectory_of_cached_cwd("/a/b", Some("/a")));
    assert!(!get_is_subdirectory_of_cached_cwd("/a/b", Some("/c")));
    assert!(!get_is_subdirectory_of_cached_cwd("/a/b", None));
}

#[test]
fn cache_path_is_decimal_pid() {
    assert_eq!(cache_file_path_for(4321), "/tmp/medusa/4321");
    assert_eq!(cache_file_path_for(0), "/tmp/medusa/0");
    assert_eq!(decimal_string(-17), "-17");
    assert_eq!(decimal_string(i32::MIN), "-2147483648");
    assert_eq!(decimal_string(i32::MAX), "2147483647");
    assert_eq!(CACHE_DIR, "/tmp/medusa");
}

#[test]
fn cache_path_for_this_session() {
    let p = get_cache_file();
    let pid = p.strip_prefix("/tmp/medusa/").unwrap();
    assert!(pid.parse::<i32>().is_ok());
}

#[test]
fn text_helpers() {
    assert_eq!(split_text("a=b=c", '='), vec!["a", "b", "c"]);
    assert_eq!(split_text("", '\n'), vec![""]);
    assert_eq!(split_text("x\n", '\n'), vec!["x", ""]);
    assert_eq!(join_strings(&vec!["a".to_string(), "b".to_string()], ", "), "a, b");
    assert!(has_prefix("abc", "ab"));
    assert!(!has_prefix("ab", "abc"));
}

#[test]
fn errors_and_messages() {
    assert!(check_invariant(true, MedusaError::MalformedCache).is_ok());
    assert!(matches!(
        check_invariant(false, MedusaError::MalformedCache),
        Err(MedusaError::MalformedCache)
    ));
    assert_eq!(MedusaError::MalformedCache.message(), "invalid cache line");
    assert_eq!(
        MedusaError::MalformedConfig("oops".to_string()).message(),
        "invalid key pair for line : oops"
    );
}

#[test]
fn empty_alias_name_survives_the_cache() {
    let installed = run(None, "/home/u/proj", Some("=x\na=b")).unwrap();
    let written = installed.cache_content.unwrap();
    assert_eq!(written, "__session_cwd_key__=/home/u/proj\n\na");
    let c = load_cache(&written).unwrap();
    assert_eq!(c.alias_names, vec!["".to_string(), "a".to_string()]);
    let removed = run(Some(&written), "/home/u/other", None).unwrap();
    assert_eq!(removed.output, "unalias ; unalias a");
    assert_eq!(removed.cache_content, None);
}

#[test]
fn carriage_returns_end_config_lines() {
    let o = run(None, "/p", Some("ll=ls -la\r\ngs=git status\r\n\r\n")).unwrap();
    assert_eq!(o.output, "alias ll=\"ls -la\"; alias gs=\"git status\"");
    assert_eq!(o.cache_content, Some("__session_cwd_key__=/p\nll\ngs".to_string()));
}

#[test]
fn executable_in_words() {
    assert_eq!(exec("ll", "ls -la").to_string(), "key: ll value: ls -la");
}
