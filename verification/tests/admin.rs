use mononoke::admin::{
    cache_mode, contains_bytes, detect_decode, format_output, plain_output, CacheMode,
};
use mononoke::app_args::MononokeApp;
use mononoke::filenodes::{cache_answer, fill_answer};
use mononoke::hooks::{
    changeset_info, file_info, hook_execution, ChangedFileType, HookChangesetParents, HookError,
    HookExecution, HookRejectionInfo, LuaHook, RustHook,
};
use serde_json::{to_string_pretty, Value};

#[test]
fn json_output_format() {
    let mut object = serde_json::Map::new();
    object.insert("changeset_type".to_string(), Value::String("hg".to_string()));
    object.insert("changeset_id".to_string(), Value::String("123".to_string()));
    let expected_answer = Value::Object(object);
    assert_eq!(
        format_output(true, "123".to_string(), "hg").unwrap(),
        to_string_pretty(&expected_answer).unwrap()
    );
}

#[test]
fn plain_output_format() {
    assert_eq!(format_output(false, "123".to_string(), "hg").unwrap(), "(HG) 123");
}

#[test]
fn json_output_names_both_fields() {
    let text = format_output(true, "abc".to_string(), "bonsai").unwrap();
    let value: Value = serde_json::from_str(&text).unwrap();
    assert_eq!(value["changeset_type"], Value::String("bonsai".to_string()));
    assert_eq!(value["changeset_id"], Value::String("abc".to_string()));
    assert!(text.contains('\n'));
}

#[test]
fn plain_output_layout() {
    assert_eq!(format_output(false, "77".to_string(), "bonsai").unwrap(), "(BONSAI) 77");
    assert_eq!(plain_output("x", "y"), "(x) y");
    assert_eq!(plain_output("", ""), "() ");
}

#[test]
fn decoder_is_guessed_from_the_key() {
    assert_eq!(detect_decode("repo0001.hgchangeset.sha1.abc"), Some("changeset"));
    assert_eq!(detect_decode("hgmanifest.sha1.abc"), Some("manifest"));
    assert_eq!(detect_decode("x.hgfilenode.sha1.abc"), Some("file"));
    assert_eq!(detect_decode("repo.content.blake2.abc"), Some("contents"));
    assert_eq!(detect_decode("hgfilenode.hgchangeset."), Some("changeset"));
    assert_eq!(detect_decode("content.hgmanifest."), Some("manifest"));
    assert_eq!(detect_decode("hgchangeset"), None);
    assert_eq!(detect_decode(""), None);
}

#[test]
fn bytes_are_searched() {
    assert!(contains_bytes(b"abcabd", b"abd"));
    assert!(contains_bytes(b"abcabd", b""));
    assert!(contains_bytes(b"", b""));
    assert!(contains_bytes(b"abc", b"abc"));
    assert!(!contains_bytes(b"abc", b"abcd"));
    assert!(!contains_bytes(b"abcabd", b"abe"));
    assert!(!contains_bytes(b"", b"a"));
}

#[test]
fn cache_modes() {
    assert_eq!(cache_mode("cache-only"), CacheMode::CacheOnly);
    assert_eq!(cache_mode("no-fill"), CacheMode::NoFill);
    assert_eq!(cache_mode("fill-mc"), CacheMode::Fill);
    assert_eq!(cache_mode(""), CacheMode::Fill);
}

#[test]
fn tool_defaults() {
    let safe = MononokeApp {
        safe_writes: true,
        hide_advanced_args: false,
        local_instances: true,
        default_glog: false,
    };
    assert_eq!(safe.default_manifold_prefix(), "mononoke_test");
    assert_eq!(safe.default_log_style(), "compact");
    let production = MononokeApp {
        safe_writes: false,
        hide_advanced_args: true,
        local_instances: false,
        default_glog: true,
    };
    assert_eq!(production.default_manifold_prefix(), "");
    assert_eq!(production.default_log_style(), "glog");
}

#[test]
fn cache_answers_as_the_store() {
    assert_eq!(fill_answer::<u8, &str>(Ok(Some(1))), Ok(1));
    assert_eq!(fill_answer::<u8, &str>(Ok(None)), Err(None));
    assert_eq!(fill_answer::<u8, &str>(Err("down")), Err(Some("down")));
    assert_eq!(cache_answer::<u8, &str>(Ok(1)), Ok(Some(1)));
    assert_eq!(cache_answer::<u8, &str>(Err(None)), Ok(None));
    assert_eq!(cache_answer::<u8, &str>(Err(Some("down"))), Err("down"));
    for found in [Ok(Some(1u8)), Ok(None), Err("down")] {
        assert_eq!(cache_answer(fill_answer(found)), found);
    }
}

#[test]
fn scripted_hook_holds_its_code() {
    let hook = LuaHook::new("testhook".to_string(), "hook = function (ctx)\nreturn true\nend".to_string());
    assert_eq!(hook.name, "testhook");
    assert_eq!(hook.code, "hook = function (ctx)\nreturn true\nend");
    assert_eq!(
        hook.program("start\n", "base\n"),
        "start\nbase\nhook = function (ctx)\nreturn true\nend"
    );
}

#[test]
fn rust_hook_accepts() {
    let hook = RustHook { name: "always".to_string() };
    assert_eq!(hook.run(), HookExecution::Accepted);
}

#[test]
fn script_is_told_of_the_changeset() {
    let pair = |a: &str, b: &str| (a.to_string(), b.to_string());
    assert_eq!(
        changeset_info("fbsource", "some-author", "some-comments", &HookChangesetParents::Zero),
        vec![
            pair("repo_name", "fbsource"),
            pair("author", "some-author"),
            pair("comments", "some-comments")
        ]
    );
    assert_eq!(
        changeset_info("r", "a", "c", &HookChangesetParents::One("p1-hash".to_string())),
        vec![
            pair("repo_name", "r"),
            pair("author", "a"),
            pair("comments", "c"),
            pair("parent1_hash", "p1-hash")
        ]
    );
    assert_eq!(
        changeset_info(
            "r",
            "a",
            "c",
            &HookChangesetParents::Two("p1-hash".to_string(), "p2-hash".to_string())
        ),
        vec![
            pair("repo_name", "r"),
            pair("author", "a"),
            pair("comments", "c"),
            pair("parent1_hash", "p1-hash"),
            pair("parent2_hash", "p2-hash")
        ]
    );
    assert_eq!(
        file_info("dir/file", ChangedFileType::Deleted),
        vec![pair("path", "dir/file"), pair("type", "deleted")]
    );
    assert_eq!(ChangedFileType::Added.script_name(), "added");
    assert_eq!(ChangedFileType::Modified.script_name(), "modified");
}

#[test]
fn answer_of_a_script_is_read() {
    assert_eq!(hook_execution(Some(true), None, None), Ok(HookExecution::Accepted));
    assert_eq!(
        hook_execution(Some(false), None, None),
        Ok(HookExecution::Rejected(HookRejectionInfo {
            description: "".to_string(),
            long_description: "".to_string()
        }))
    );
    assert_eq!(
        hook_execution(Some(false), Some("emus".to_string()), Some("ostriches".to_string())),
        Ok(HookExecution::Rejected(HookRejectionInfo {
            description: "emus".to_string(),
            long_description: "ostriches".to_string()
        }))
    );
    assert_eq!(
        hook_execution(None, Some("emus".to_string()), None),
        Err(HookError::RuntimeError("No hook return".to_string()))
    );
}
