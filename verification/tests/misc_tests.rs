use cxlib_app::sign_select::{missing_code_message, sign_plan, SignKind, SignPlan};
use cxlib_app::account::{AccountData, AccountTable};
use cxlib_app::account_cmd::AccountCmdApp;
use cxlib_app::activity::{Activity, ActivityEntry};
use cxlib_app::app_info::{AppInfo, ConfigDir};
use cxlib_app::bin_code::BinCode;
use cxlib_app::collect::collect_step;
use cxlib_app::config::{CommonDataTable, KeyType};
use cxlib_app::error::{Error, StoreError, TableErrorKind, TransactionErrorKind};
use cxlib_app::exclude::ExcludeTable;
use cxlib_app::global_multimap::{Builder, GetKeyStr, GlobalMultimap, GlobalMultimapItem};
use cxlib_app::model::Course;
use cxlib_app::sign_select::{activities_of_course, listed_signs, select_signs, SignSelection};
use cxlib_app::store::Tables;
use std::path::PathBuf;

struct Solver {
    name: String,
}

impl GetKeyStr for Solver {
    fn key_str(&self) -> &str {
        &self.name
    }
}

struct MakeSolver(&'static str);

impl Builder<Solver> for MakeSolver {
    fn build(&self) -> Solver {
        Solver { name: self.0.to_string() }
    }
}

#[test]
fn registered_builders_can_build() {
    let mut gm: GlobalMultimap<Solver, MakeSolver> = GlobalMultimap::new();
    assert!(gm.build("pwd").is_none());
    gm.register_builder(MakeSolver("pwd"));
    assert_eq!(gm.build("pwd").unwrap().name, "pwd");
    assert!(gm.build("qr").is_none());
    let item = GlobalMultimapItem::new(&mut gm, "pwd").unwrap();
    assert_eq!(item.key_str(), "pwd");
    assert_eq!(item.get().name, "pwd");
    assert_eq!(item.get_ref().get().name, "pwd");
    assert!(GlobalMultimapItem::new(&mut gm, "qr").is_none());
}

#[test]
fn app_info_defaults() {
    let d = AppInfo::default();
    assert_eq!(d.env_arg(), "TEST_CXSIGN");
    assert_eq!(d.qualifier(), "up.workso");
    assert_eq!(d.organization(), "Worksoup");
    assert_eq!(d.application(), "cxsign");
    let n = AppInfo::new("E", "q", "o", "a");
    assert_eq!(n.application(), "a");
}

#[test]
fn config_dir_of_a_test_run_is_its_test_folder() {
    let base = PathBuf::from("/home/u/.config/cxsign");
    assert_eq!(ConfigDir::with_base(base.clone(), false).get_config_dir(), &base);
    assert_eq!(
        ConfigDir::with_base(base.clone(), true).get_config_dir(),
        &PathBuf::from("/home/u/.config/cxsign/test")
    );
    assert_eq!(ConfigDir::from(base.clone()).get_config_dir(), &base);
}

#[test]
fn bin_code_holds_its_value() {
    let b: BinCode<u32> = BinCode::from(7);
    assert_eq!(*b.get(), 7);
    assert_eq!(b.into_inner(), 7);
}

#[test]
fn which_errors_are_fatal() {
    assert!(!StoreError::ParseError("x".to_string()).is_fatal());
    assert!(StoreError::LoginError { fatal: true, message: String::new() }.is_fatal());
    assert!(!StoreError::LoginError { fatal: false, message: String::new() }.is_fatal());
    assert!(StoreError::TableError(TableErrorKind::TableDoesNotExist("t".to_string())).is_fatal());
    assert!(StoreError::StorageError(String::new()).is_fatal());
    assert!(!StoreError::TransactionError(TransactionErrorKind::ReadTransactionStillInUse(String::new())).is_fatal());
    assert!(StoreError::TransactionError(TransactionErrorKind::Storage(String::new())).is_fatal());
    assert!(StoreError::CommitError(String::new()).is_fatal());
    assert!(!StoreError::WriteOnReadTransaction.is_fatal());
    assert!(StoreError::LogicError(String::new()).is_fatal());
    assert!(StoreError::UnexpectedNone(String::new()).is_fatal());
    assert!(!Error::CaptchaError(String::new()).is_fatal());
    assert!(!Error::ProtocolError(String::new()).is_fatal());
    assert!(Error::SignError { fatal: true, message: String::new() }.is_fatal());
    assert!(!Error::AgentError { fatal: false, message: String::new() }.is_fatal());
    assert!(!Error::StoreError(StoreError::WriteOnReadTransaction).is_fatal());
}

#[test]
fn gathering_sessions() {
    let mut s: Vec<(String, u32)> = Vec::new();
    assert!(collect_step(&mut s, "a".to_string(), Ok(1)).is_ok());
    assert!(collect_step(&mut s, "b".to_string(), Err(StoreError::ParseError(String::new()))).is_ok());
    assert_eq!(s.len(), 1);
    let stop = collect_step(&mut s, "c".to_string(), Err(StoreError::StorageError("disk".to_string())));
    assert!(matches!(stop, Err(StoreError::StorageError(_))));
    assert!(collect_step(&mut s, "a".to_string(), Ok(2)).is_ok());
    assert_eq!(s, vec![("a".to_string(), 2)]);
}

fn activity(id: &str, is_sign: bool, valid: bool) -> Activity {
    Activity {
        id: id.to_string(),
        name: format!("sign {id}"),
        course: Course { course_id: 1, class_id: 2 },
        start_time_mills: 0,
        status_code: 0,
        is_sign,
        valid,
    }
}

#[test]
fn sign_selection() {
    let acts = vec![activity("11", true, true), activity("12", true, false), activity("13", false, true)];
    assert!(matches!(select_signs(&acts, false, None, false), SignSelection::Signs(ref ix) if ix == &vec![0]));
    assert!(matches!(select_signs(&acts, true, None, false), SignSelection::Signs(ref ix) if ix == &vec![0, 1]));
    assert!(matches!(select_signs(&acts, true, Some(12), false), SignSelection::Signs(ref ix) if ix == &vec![1]));
    assert!(matches!(
        select_signs(&acts, false, Some(12), true),
        SignSelection::NoSuchActivity { has_uid_arg: true }
    ));
    let none = vec![activity("13", false, true)];
    assert!(matches!(select_signs(&none, true, None, false), SignSelection::Empty));
    assert_eq!(listed_signs(&acts, false), vec![0]);
    assert_eq!(listed_signs(&acts, true), vec![0, 1]);
}

#[test]
fn activity_cache_merges_users_and_marks_course_used() {
    let mut db = Tables::new();
    let course = Course { course_id: 1, class_id: 2 };
    db.courses.insert_course(
        &course,
        (
            cxlib_app::model::CourseInfo { name: "A".to_string(), ended: false },
            cxlib_app::course::CourseData::new(u64::MAX, vec![], vec![]),
        ),
    );
    let mut a = activity("11", true, true);
    a.start_time_mills = 500;
    let first = cxlib_app::activity::ActivityTable::merge(
        &mut db,
        &"11".to_string(),
        ActivityEntry { activity: a, users: vec!["u1".to_string()] },
    );
    assert_eq!(first.users, vec!["u1".to_string()]);
    assert_eq!(*db.courses.get_course(&course).unwrap().1.recently_used_timestamp(), 500);
    let second = cxlib_app::activity::ActivityTable::merge(
        &mut db,
        &"11".to_string(),
        ActivityEntry { activity: activity("11", true, false), users: vec!["u2".to_string(), "u1".to_string()] },
    );
    let mut users = second.users.clone();
    users.sort();
    assert_eq!(users, vec!["u1", "u2"]);
    assert!(!second.activity.valid);
    assert!(db.activities.update_status(&"11".to_string(), 3));
    assert_eq!(db.activities.get(&"11".to_string()).unwrap().activity.status_code, 3);
    assert!(!db.activities.update_status(&"99".to_string(), 3));
}

#[test]
fn account_lines() {
    let a = AccountData::new("138".to_string(), "Li".to_string(), "enc".to_string(), "pwd".to_string());
    assert_eq!(a.to_line(), "138,enc,pwd");
    let back = AccountData::parse_line("138, Li ,enc").ok().unwrap();
    assert_eq!(back.uname(), "138");
    assert_eq!(back.enc_pwd(), "enc");
    assert_eq!(back.stu_name(), "Li");
    assert_eq!(back.login_type(), "");
    let four = AccountData::parse_line("138,Li,enc,qr").ok().unwrap();
    assert_eq!(four.enc_pwd(), "enc");
    assert_eq!(four.stu_name(), "Li");
    assert_eq!(four.login_type(), "qr");
    match AccountData::parse_line("138,,enc") {
        Err(StoreError::ParseError(m)) => {
            assert_eq!(m, "登录所需信息解析出错！格式为 `uname, stu_name, enc_pwd[, login_typ]`.")
        }
        _ => panic!("a parse error was expected"),
    }
    let example = AccountData::parse_line("u1, 张三, p1, phone").ok().unwrap();
    assert_eq!(example.stu_name(), "张三");
    assert_eq!(example.enc_pwd(), "p1");
    assert_eq!(example.login_type(), "phone");
}

#[test]
fn account_table_and_commands() {
    let mut t = AccountTable::new();
    let a = AccountData::new("138".to_string(), "Li".to_string(), "enc".to_string(), "pwd".to_string());
    t.add_account("1001", &a);
    assert!(t.has_account("1001"));
    assert_eq!(t.get_accounts_by_uid_list_str(" 1001 , 2002").len(), 1);
    assert_eq!(t.export_text(), "138,enc,pwd\n");
    let removed = AccountCmdApp::remove(&mut t, "1001").unwrap();
    assert_eq!(removed.stu_name(), "Li");
    assert!(AccountCmdApp::remove(&mut t, "1001").is_none());
    assert_eq!(
        AccountCmdApp::login_type_and_uname("pwd:138"),
        (Some("pwd".to_string()), "138".to_string())
    );
    assert_eq!(AccountCmdApp::login_type_and_uname("138"), (None, "138".to_string()));
}

#[test]
fn excludes_round_trip() {
    let mut t = ExcludeTable::new();
    t.update_excludes(&vec![5, -3, 5, 12]);
    let text = t.export_text();
    let mut lines: Vec<&str> = text.lines().collect();
    lines.sort();
    assert_eq!(lines, vec!["-3", "12", "5"]);
    let mut u = ExcludeTable::new();
    u.import_text(&format!("{text}\nnot a number\n\n"));
    let mut ids = u.get_excludes();
    ids.sort();
    assert_eq!(ids, vec![-3, 5, 12]);
    u.delete_exclude(5);
    assert!(!u.has_exclude(5));
    u.remove_all();
    assert!(u.get_excludes().is_empty());
}

#[test]
fn account_import_lines() {
    let text = "138,enc,Li\n\nbad line\n139, e2 , Wang , qr\n";
    let accounts = cxlib_app::account::parse_account_lines(text);
    assert_eq!(accounts.len(), 2);
    assert_eq!(accounts[0].uname(), "138");
    assert_eq!(accounts[1].stu_name(), "e2");
    assert_eq!(accounts[1].enc_pwd(), "Wang");
    assert_eq!(accounts[1].login_type(), "qr");
}

#[test]
fn settings_import_rows() {
    let key = |k: &str| KeyType { block: "config".to_string(), identifier: "default".to_string(), key: k.to_string() };
    let mut t = CommonDataTable::new();
    t.insert(key("a"), "old".to_string());
    let replaced = t.import_rows(vec![(key("a"), "1".to_string()), (key("b"), "2".to_string()), (key("b"), "3".to_string())]);
    assert_eq!(replaced, vec![Some("old".to_string()), None, Some("2".to_string())]);
    assert_eq!(t.get(&key("a")), Some("1".to_string()));
    assert_eq!(t.get(&key("b")), Some("3".to_string()));
}

#[test]
fn activity_import_rows() {
    let mut t = cxlib_app::activity::ActivityTable::new();
    let entry = |id: &str| ActivityEntry { activity: activity(id, true, true), users: vec![] };
    let replaced = t.import_rows(vec![("1".to_string(), entry("1")), ("1".to_string(), entry("1")), ("2".to_string(), entry("2"))]);
    assert_eq!(replaced, vec![false, true, false]);
    assert_eq!(t.iter().len(), 2);
}

#[test]
fn sessions_of_users() {
    let users = vec!["u3".to_string(), "u1".to_string(), "u9".to_string()];
    let uids = vec!["u1".to_string(), "u2".to_string(), "u3".to_string()];
    assert_eq!(cxlib_app::collect::session_positions(&users, &uids), vec![2, 0]);
    assert_eq!(cxlib_app::collect::session_positions(&vec![], &uids), Vec::<usize>::new());
}

#[test]
fn activities_of_a_course() {
    let mut other = activity("21", true, true);
    other.course = Course { course_id: 5, class_id: 6 };
    let acts = vec![activity("11", true, true), other, activity("12", false, true)];
    assert_eq!(activities_of_course(&acts, Some(Course { course_id: 5, class_id: 6 })), vec![1]);
    assert_eq!(activities_of_course(&acts, Some(Course { course_id: 1, class_id: 2 })), vec![0, 2]);
    assert_eq!(activities_of_course(&acts, None), vec![0, 1, 2]);
}

#[test]
fn importing_accounts_after_login() {
    let mut t = AccountTable::new();
    let a = AccountData::new("138".to_string(), "Li".to_string(), "enc".to_string(), "pwd".to_string());
    assert!(t.import_account(&a, Ok("1001".to_string())).is_ok());
    assert!(t.has_account("1001"));
    let skipped = t.import_account(&a, Err(StoreError::LoginError { fatal: false, message: "bad".to_string() }));
    assert!(skipped.is_ok());
    let stop = t.import_account(&a, Err(StoreError::LoginError { fatal: true, message: "net".to_string() }));
    assert!(matches!(stop, Err(StoreError::LoginError { fatal: true, .. })));
    assert_eq!(t.get_all_accounts().len(), 1);
}

#[test]
fn account_data_or_error() {
    let mut t = AccountTable::new();
    assert!(matches!(t.get_account_data("1"), Err(StoreError::UnexpectedNone(_))));
    let a = AccountData::new("138".to_string(), "Li".to_string(), "enc".to_string(), "pwd".to_string());
    t.add_account("1", &a);
    assert_eq!(t.get_account_data("1").ok().unwrap().uname(), "138");
}

#[test]
fn notice_names_the_program() {
    let info = AppInfo::default();
    let text = cxlib_app::cli::SignParser::notice_content(&info);
    let app = info.application();
    let expected = format!("\n\n++++++++++++++++++++++++++++++++++++++++++++++++++++++++++++++++\n\n    列出签到时会默认排除从未发过签到或最后一次签到在 160 天\n    之前的课程。\n\n    如有需要，请使用 `{app} list -a` 命令强制列出所有签到\n    或使用 `{app} list -c <COURSE_ID>` 列出特定课程的签\n    到，此时将会刷新排除列表。\n\n    注意，`{app} list -a` 耗时十几秒到数分钟不等。不过后者\n    耗时较短。\n\n++++++++++++++++++++++++++++++++++++++++++++++++++++++++++++++++\n\n");
    assert_eq!(text, expected);
    assert!(text.contains("最后一次签到在 160 天"));
}

fn logged_in() -> cxlib_app::account_cmd::LoggedIn {
    cxlib_app::account_cmd::LoggedIn {
        uid: "42".to_string(),
        name: "张三".to_string(),
        enc_pwd: "enc".to_string(),
        login_type: "phone".to_string(),
        cookies: "c=1".to_string(),
    }
}

#[test]
fn logged_in_account_is_stored_and_filed_under_its_courses() {
    let mut db = cxlib_app::store::Tables::new();
    let known = cxlib_app::model::Course { course_id: 1, class_id: 1 };
    db.courses.insert_course(
        &known,
        (
            cxlib_app::model::CourseInfo { name: "Old".to_string(), ended: false },
            cxlib_app::course::CourseData::new(100, vec!["7".to_string()], vec![]),
        ),
    );
    let fresh = cxlib_app::model::Course { course_id: 2, class_id: 2 };
    let fetched = vec![
        (known, cxlib_app::model::CourseInfo { name: "New".to_string(), ended: true }),
        (fresh, cxlib_app::model::CourseInfo { name: "B".to_string(), ended: false }),
        (fresh, cxlib_app::model::CourseInfo { name: "B2".to_string(), ended: false }),
    ];
    AccountCmdApp::add_logged_in(&mut db, "phone:138", &logged_in(), Some(&fetched));
    let a = db.accounts.get_account("42").unwrap();
    assert_eq!(a.uname(), "138");
    assert_eq!(a.stu_name(), "张三");
    assert_eq!(a.enc_pwd(), "enc");
    assert_eq!(a.login_type(), "phone");
    assert_eq!(db.common_data.cookies_of("42", "phone").unwrap(), "c=1");
    let (info, data) = db.courses.get_course(&known).unwrap();
    assert_eq!(info.name, "New");
    assert_eq!(*data.recently_used_timestamp(), u64::MAX);
    let mut users = data.users().clone();
    users.sort();
    assert_eq!(users, vec!["42", "7"]);
    let (info, data) = db.courses.get_course(&fresh).unwrap();
    assert_eq!(info.name, "B2");
    assert_eq!(data.users(), &vec!["42".to_string()]);
    assert!(data.locations().is_empty());
}

#[test]
fn logged_in_without_courses_leaves_them() {
    let mut db = cxlib_app::store::Tables::new();
    AccountCmdApp::add_logged_in(&mut db, "138", &logged_in(), None);
    assert_eq!(db.accounts.get_account("42").unwrap().uname(), "138");
    assert!(db.courses.get_courses().is_empty());
}

#[test]
fn sign_plans_by_kind() {
    assert!(matches!(sign_plan(SignKind::Photo, None), SignPlan::Photo));
    assert!(matches!(sign_plan(SignKind::Unknown, None), SignPlan::Normal));
    assert!(matches!(sign_plan(SignKind::Location, Some("1".to_string())), SignPlan::Location));
    match sign_plan(SignKind::Gesture, Some("1478".to_string())) {
        SignPlan::WithCode(c) => assert_eq!(c, "1478"),
        _ => panic!("the code is used"),
    }
    assert!(matches!(sign_plan(SignKind::Gesture, None), SignPlan::MissingCode { gesture: true }));
    assert!(matches!(sign_plan(SignKind::Signcode, None), SignPlan::MissingCode { gesture: false }));
    assert_eq!(missing_code_message(true, "早签"), "所有用户在手势签到[早签]中签到失败！需要提供签到码！");
    assert_eq!(missing_code_message(false, "x"), "所有用户在签到码签到[x]中签到失败！需要提供签到码！");
}
