//! The options of the sign-in run and of the `where-is-config` command.
use crate::app_info::AppInfo;
use crate::model::Course;
use std::path::PathBuf;
use vstd::prelude::*;

verus! {

/// What a sign-in hands to the sign-in service.
pub struct CliArgs {
    /// The place given by the user: `name,lon,lat,alt`, or an alias.
    pub location_str: Option<String>,
    /// The picture, or the folder that holds it.
    pub image: Option<PathBuf>,
    /// Cut the QR code out of the screen precisely.
    pub precisely: bool,
    /// The code of a gesture or code sign-in.
    pub signcode: Option<String>,
}

/// The options of the sign-in run.
pub struct SignParser {
    /// The id of the one sign-in to handle.
    pub id: Option<i64>,
    /// The uids to sign in with, separated by commas.
    pub uid: Option<String>,
    pub location: Option<String>,
    pub image: Option<PathBuf>,
    pub precisely: bool,
    pub code: Option<String>,
    /// How many courses to look at.
    pub limit: Option<usize>,
    /// List the sign-ins instead of handling them.
    pub list: bool,
    /// The one course to look at.
    pub course: Option<Course>,
    /// Take closed sign-ins too.
    pub all: bool,
    /// Fetch the courses and activities anew.
    pub fresh: bool,
}

/// The notice shown before sign-ins are listed or handled, for the program
/// named `app`: which courses are left out by default, and how to list them all.
pub open spec fn notice_text(app: Seq<char>) -> Seq<char> {
    "\n\n++++++++++++++++++++++++++++++++++++++++++++++++++++++++++++++++\n\n    列出签到时会默认排除从未发过签到或最后一次签到在 160 天\n    之前的课程。\n\n    如有需要，请使用 `"@ + app + " list -a` 命令强制列出所有签到\n    或使用 `"@ + app + " list -c <COURSE_ID>` 列出特定课程的签\n    到，此时将会刷新排除列表。\n\n    注意，`"@ + app
        + " list -a` 耗时十几秒到数分钟不等。不过后者\n    耗时较短。\n\n++++++++++++++++++++++++++++++++++++++++++++++++++++++++++++++++\n\n"@
}

impl SignParser {
    /// The notice shown before sign-ins are listed or handled.
    pub fn notice_content(app_info: &AppInfo) -> (r: String)
        ensures
            r@ == notice_text(app_info.spec_application()),
    {
        let app = app_info.application();
        let mut s = String::from_str("\n\n++++++++++++++++++++++++++++++++++++++++++++++++++++++++++++++++\n\n    列出签到时会默认排除从未发过签到或最后一次签到在 160 天\n    之前的课程。\n\n    如有需要，请使用 `");
        s.append(app);
        s.append(" list -a` 命令强制列出所有签到\n    或使用 `");
        s.append(app);
        s.append(" list -c <COURSE_ID>` 列出特定课程的签\n    到，此时将会刷新排除列表。\n\n    注意，`");
        s.append(app);
        s.append(" list -a` 耗时十几秒到数分钟不等。不过后者\n    耗时较短。\n\n++++++++++++++++++++++++++++++++++++++++++++++++++++++++++++++++\n\n");
        s
    }

    /// The options handed to the sign-in service.
    pub fn cli_args(self) -> (r: CliArgs)
        ensures
            r.location_str == self.location,
            r.image == self.image,
            r.precisely == self.precisely,
            r.signcode == self.code,
    {
        CliArgs {
            location_str: self.location,
            image: self.image,
            precisely: self.precisely,
            signcode: self.code,
        }
    }
}

/// The `where-is-config` command, which shows the configuration folder.
pub struct WhereIsConfigParser;

/// What runs the `where-is-config` command.
pub struct WhereIsConfigCmdApp {}

impl Default for WhereIsConfigCmdApp {
    fn default() -> (r: Self)
        ensures
            r == (WhereIsConfigCmdApp {}),
    {
        WhereIsConfigCmdApp {}
    }
}

} // verus!
