//! Accounts: what is kept of each, the table of them, and their text form.
use crate::error::{spec_is_fatal, StoreError};
use crate::table_map::{distinct_keys, map_of, TableMap, ValueCopy};
use crate::model::plain_field;
use crate::seqs::{lemma_seq_views_push, seq_views};
use crate::text::{
    fields_spec, is_nonempty, lemma_filter_all, lemma_split_plain, lemma_split_push_field,
    lines_spec, nonempty_fields, nonempty_lines, nonempty_lines_spec, split_spec, to_string_lines,
    trim_all, trim_spec, trimmed_pieces, views,
};
use vstd::prelude::*;

verus! {

/// What is kept of an account: the user name, the student's name, the
/// encrypted password and the kind of login.
pub struct AccountData {
    uname: String,
    stu_name: String,
    enc_pwd: String,
    login_type: String,
}

pub struct AccountDataView {
    pub uname: Seq<char>,
    pub stu_name: Seq<char>,
    pub enc_pwd: Seq<char>,
    pub login_type: Seq<char>,
}

impl View for AccountData {
    type V = AccountDataView;

    closed spec fn view(&self) -> AccountDataView {
        AccountDataView {
            uname: self.uname@,
            stu_name: self.stu_name@,
            enc_pwd: self.enc_pwd@,
            login_type: self.login_type@,
        }
    }
}

impl ValueCopy for AccountData {
    fn copy_value(&self) -> (r: Self) {
        AccountData {
            uname: self.uname.clone(),
            stu_name: self.stu_name.clone(),
            enc_pwd: self.enc_pwd.clone(),
            login_type: self.login_type.clone(),
        }
    }
}

/// The line an account is exported as: `uname,enc_pwd,login_type`.
pub open spec fn account_line(a: AccountDataView) -> Seq<char> {
    a.uname + seq![','] + a.enc_pwd + seq![','] + a.login_type
}

/// The account read from a line written `uname, stu_name, enc_pwd[, login_type]`:
/// at least three comma separated fields that are not empty once trimmed, taken as
/// `uname`, `stu_name`, `enc_pwd` and, where there are exactly four, `login_type`
/// (else it is empty).
pub open spec fn parse_account_spec(s: Seq<char>) -> Option<AccountDataView> {
    let f = fields_spec(s, ',');
    if f.len() < 3 {
        None
    } else {
        Some(
            AccountDataView {
                uname: f[0],
                stu_name: f[1],
                enc_pwd: f[2],
                login_type: if f.len() == 4 {
                    f[3]
                } else {
                    Seq::<char>::empty()
                },
            },
        )
    }
}

/// Reading back the line that an account is exported as, its fields plain and not
/// empty, gives its name back; as the line is `uname,enc_pwd,login_type` and is read
/// as `uname, stu_name, enc_pwd`, the password comes back as the student's name, the
/// login type as the password, and the login type is left empty.
pub proof fn lemma_account_line_read_back(a: AccountDataView)
    requires
        plain_field(a.uname) && a.uname.len() > 0,
        plain_field(a.enc_pwd) && a.enc_pwd.len() > 0,
        plain_field(a.login_type) && a.login_type.len() > 0,
    ensures
        parse_account_spec(account_line(a)) == Some(
            AccountDataView {
                uname: a.uname,
                stu_name: a.enc_pwd,
                enc_pwd: a.login_type,
                login_type: Seq::<char>::empty(),
            },
        ),
{
    lemma_split_plain(a.uname, ',');
    lemma_split_push_field(a.uname, ',', a.enc_pwd);
    lemma_split_push_field(a.uname + seq![','] + a.enc_pwd, ',', a.login_type);
    let parts = seq![a.uname, a.enc_pwd, a.login_type];
    assert(split_spec(account_line(a), ',') =~= parts);
    assert(trim_all(parts) =~= parts);
    lemma_filter_all(parts, |l: Seq<char>| is_nonempty(l));
}

impl AccountData {
    pub fn new(uname: String, stu_name: String, enc_pwd: String, login_type: String) -> (r:
        AccountData)
        ensures
            r@ == (AccountDataView {
                uname: uname@,
                stu_name: stu_name@,
                enc_pwd: enc_pwd@,
                login_type: login_type@,
            }),
    {
        AccountData { uname, stu_name, enc_pwd, login_type }
    }

    pub fn uname(&self) -> (r: &str)
        ensures
            r@ == self@.uname,
    {
        self.uname.as_str()
    }

    pub fn stu_name(&self) -> (r: &str)
        ensures
            r@ == self@.stu_name,
    {
        self.stu_name.as_str()
    }

    pub fn enc_pwd(&self) -> (r: &str)
        ensures
            r@ == self@.enc_pwd,
    {
        self.enc_pwd.as_str()
    }

    pub fn login_type(&self) -> (r: &str)
        ensures
            r@ == self@.login_type,
    {
        self.login_type.as_str()
    }

    /// Writes the account as the line it is exported as.
    pub fn to_line(&self) -> (r: String)
        ensures
            r@ == account_line(self@),
    {
        proof {
            reveal_strlit(",");
        }
        let mut s = self.uname.clone();
        s.append(",");
        s.append(self.enc_pwd.as_str());
        s.append(",");
        s.append(self.login_type.as_str());
        assert(s@ =~= account_line(self@));
        s
    }

    /// Reads an account from a line; a line with fewer than three fields is a
    /// parse error that names the format.
    pub fn parse_line(s: &str) -> (r: Result<AccountData, StoreError>)
        ensures
            match r {
                Ok(a) => parse_account_spec(s@) == Some(a@),
                Err(e) => parse_account_spec(s@) is None && (e matches StoreError::ParseError(m) && m@
                    == "登录所需信息解析出错！格式为 `uname, stu_name, enc_pwd[, login_typ]`."@),
            },
    {
        let f = nonempty_fields(s, ',');
        if f.len() < 3 {
            return Err(
                StoreError::ParseError(
                    String::from_str(
                        "登录所需信息解析出错！格式为 `uname, stu_name, enc_pwd[, login_typ]`.",
                    ),
                ),
            );
        }
        assert(views(f@)[0] == f@[0]@);
        assert(views(f@)[1] == f@[1]@);
        assert(views(f@)[2] == f@[2]@);
        let login_type = if f.len() == 4 {
            assert(views(f@)[3] == f@[3]@);
            f[3].clone()
        } else {
            String::new()
        };
        let a = AccountData {
            uname: f[0].clone(),
            stu_name: f[1].clone(),
            enc_pwd: f[2].clone(),
            login_type,
        };
        assert(parse_account_spec(s@) == Some(a@));
        Ok(a)
    }
}

/// The accounts read from the given lines, in order; a line that is no account is
/// skipped.
pub open spec fn accounts_of_lines(ls: Seq<Seq<char>>) -> Seq<AccountDataView>
    decreases ls.len(),
{
    if ls.len() == 0 {
        Seq::<AccountDataView>::empty()
    } else {
        match parse_account_spec(ls.last()) {
            Some(a) => accounts_of_lines(ls.drop_last()).push(a),
            None => accounts_of_lines(ls.drop_last()),
        }
    }
}

/// Reads the accounts of an import text: one per line that is not empty; a line
/// that is no account is skipped.
pub fn parse_account_lines(contents: &str) -> (r: Vec<AccountData>)
    ensures
        seq_views(r@) == accounts_of_lines(nonempty_lines_spec(contents@)),
{
    let lines = nonempty_lines(contents);
    let ghost ls = views(lines@);
    let mut r: Vec<AccountData> = Vec::new();
    let mut i: usize = 0;
    assert(ls.take(0) =~= Seq::<Seq<char>>::empty());
    while i < lines.len()
        invariant
            i <= lines@.len(),
            ls == views(lines@),
            seq_views(r@) == accounts_of_lines(ls.take(i as int)),
        decreases lines.len() - i,
    {
        proof {
            assert(ls.take(i + 1).drop_last() =~= ls.take(i as int));
            assert(ls.take(i + 1).last() == lines@[i as int]@);
        }
        match AccountData::parse_line(lines[i].as_str()) {
            Ok(a) => {
                proof {
                    lemma_seq_views_push(r@, a);
                }
                r.push(a);
            },
            Err(_) => {},
        }
        i += 1;
    }
    assert(ls.take(lines@.len() as int) =~= ls);
    r
}

/// The pieces of a comma separated list of uids, each trimmed.
pub open spec fn uid_list_spec(s: Seq<char>) -> Seq<Seq<char>> {
    trim_all(split_spec(s, ','))
}

/// A text without a comma is a list of one uid, the text trimmed; and a comma
/// followed by a text without one adds that text, trimmed, as the last uid. So
/// the list has one uid per comma-separated piece, in order, each trimmed.
pub proof fn lemma_uid_list_pieces(s: Seq<char>, t: Seq<char>)
    requires
        !t.contains(','),
    ensures
        uid_list_spec(t) == seq![trim_spec(t)],
        uid_list_spec(s + seq![','] + t) == uid_list_spec(s).push(trim_spec(t)),
{
    lemma_split_plain(t, ',');
    assert(uid_list_spec(t) =~= seq![trim_spec(t)]);
    lemma_split_push_field(s, ',', t);
    assert(uid_list_spec(s + seq![','] + t) =~= uid_list_spec(s).push(trim_spec(t)));
}

/// The list has one uid more than the text has commas.
pub proof fn lemma_uid_list_len(s: Seq<char>)
    ensures
        uid_list_spec(s).len() == s.filter(|c: char| c == ',').len() + 1,
    decreases s.len(),
{
    if s.len() > 0 {
        lemma_uid_list_len(s.drop_last());
        let pred = |c: char| c == ',';
        s.drop_last().lemma_filter_push(s.last(), pred);
        assert(s.drop_last().push(s.last()) =~= s);
    }
}

/// Reads a comma separated list of uids.
pub fn parse_uid_list(s: &str) -> (r: Vec<String>)
    ensures
        views(r@) == uid_list_spec(s@),
{
    trimmed_pieces(s, ',')
}

/// The accounts, by uid.
pub struct AccountTable {
    map: TableMap<String, AccountData>,
}

impl View for AccountTable {
    type V = Map<Seq<char>, AccountDataView>;

    closed spec fn view(&self) -> Map<Seq<char>, AccountDataView> {
        self.map@
    }
}

impl AccountTable {
    pub closed spec fn wf(&self) -> bool {
        self.map.wf()
    }

    /// An empty table.
    pub fn new() -> (r: AccountTable)
        ensures
            r.wf(),
            r@ == Map::<Seq<char>, AccountDataView>::empty(),
    {
        AccountTable { map: TableMap::new() }
    }

    pub fn has_account(&self, uid: &str) -> (r: bool)
        requires
            self.wf(),
        ensures
            r == self@.contains_key(uid@),
    {
        self.map.contains_key(&String::from_str(uid))
    }

    /// What is kept of the account of `uid`; an `UnexpectedNone` error where there
    /// is none.
    pub fn get_account_data(&self, uid: &str) -> (r: Result<AccountData, StoreError>)
        requires
            self.wf(),
        ensures
            match r {
                Ok(a) => self@.contains_key(uid@) && a@ == self@[uid@],
                Err(e) => !self@.contains_key(uid@) && e is UnexpectedNone,
            },
    {
        match self.get_account(uid) {
            Some(a) => Ok(a),
            None => Err(StoreError::UnexpectedNone(String::from_str("no such account; check the uid or log in"))),
        }
    }

    /// Deletes the account of `uid`; returns what was kept of it.
    pub fn delete_account(&mut self, uid: &str) -> (r: Option<AccountData>)
        requires
            old(self).wf(),
        ensures
            final(self).wf(),
            final(self)@ == old(self)@.remove(uid@),
            match r {
                Some(a) => old(self)@.contains_key(uid@) && a@ == old(self)@[uid@],
                None => !old(self)@.contains_key(uid@),
            },
    {
        self.map.remove(&String::from_str(uid))
    }

    /// Stores `account` under `uid`.
    pub fn add_account(&mut self, uid: &str, account: &AccountData)
        requires
            old(self).wf(),
        ensures
            final(self).wf(),
            final(self)@ == old(self)@.insert(uid@, account@),
    {
        let _ = self.map.insert(String::from_str(uid), account.copy_value());
    }

    /// Takes in what logging in an imported account gave: its uid, under which the
    /// account is stored; or an error, which is handed back where it is fatal and
    /// ends the import, and else only skips the account.
    pub fn import_account(&mut self, account: &AccountData, login: Result<String, StoreError>) -> (r: Result<
        (),
        StoreError,
    >)
        requires
            old(self).wf(),
        ensures
            final(self).wf(),
            match login {
                Ok(uid) => r is Ok && final(self)@ == old(self)@.insert(uid@, account@),
                Err(e) => final(self)@ == old(self)@ && if spec_is_fatal(e) {
                    r == Err::<(), StoreError>(e)
                } else {
                    r is Ok
                },
            },
    {
        match login {
            Ok(uid) => {
                self.add_account(uid.as_str(), account);
                Ok(())
            },
            Err(e) => if e.is_fatal() {
                Err(e)
            } else {
                Ok(())
            },
        }
    }

    /// Stores `account` under `uid`; returns what it replaces.
    pub fn update_account(&mut self, uid: &str, account: &AccountData) -> (r: Option<AccountData>)
        requires
            old(self).wf(),
        ensures
            final(self).wf(),
            final(self)@ == old(self)@.insert(uid@, account@),
            match r {
                Some(a) => old(self)@.contains_key(uid@) && a@ == old(self)@[uid@],
                None => !old(self)@.contains_key(uid@),
            },
    {
        self.map.insert(String::from_str(uid), account.copy_value())
    }

    /// What is kept of the account of `uid`.
    pub fn get_account(&self, uid: &str) -> (r: Option<AccountData>)
        requires
            self.wf(),
        ensures
            match r {
                Some(a) => self@.contains_key(uid@) && a@ == self@[uid@],
                None => !self@.contains_key(uid@),
            },
    {
        self.map.get_copy(&String::from_str(uid))
    }

    /// Every account with its uid.
    pub fn get_all_accounts(&self) -> (r: Vec<(String, AccountData)>)
        requires
            self.wf(),
        ensures
            distinct_keys(r@),
            map_of(r@) == self@,
    {
        self.map.to_vec()
    }

    /// The accounts whose uids are among `uids`.
    pub fn get_accounts(&self, uids: &Vec<String>) -> (r: Vec<(String, AccountData)>)
        requires
            self.wf(),
        ensures
            distinct_keys(r@),
            map_of(r@) == self@.restrict(views(uids@).to_set()),
    {
        let r = self.map.rows_where(uids);
        assert(uids@.map_values(|k: String| k@) =~= views(uids@));
        r
    }

    /// The accounts whose uids are listed, comma separated, in `uid_list`.
    pub fn get_accounts_by_uid_list_str(&self, uid_list: &str) -> (r: Vec<(String, AccountData)>)
        requires
            self.wf(),
        ensures
            distinct_keys(r@),
            map_of(r@) == self@.restrict(uid_list_spec(uid_list@).to_set()),
    {
        let uids = parse_uid_list(uid_list);
        self.get_accounts(&uids)
    }

    /// The export text: one line per account, each written as `account_line` states.
    pub fn export_text(&self) -> (r: String)
        requires
            self.wf(),
        ensures
            exists|rows: Seq<(String, AccountData)>|
                distinct_keys(rows) && map_of(rows) == self@ && r@ == lines_spec(
                    rows.map_values(|e: (String, AccountData)| account_line(e.1@)),
                ),
    {
        let rows = self.get_all_accounts();
        let mut lines: Vec<String> = Vec::new();
        let mut i: usize = 0;
        while i < rows.len()
            invariant
                i <= rows.len(),
                views(lines@) == rows@.take(i as int).map_values(
                    |e: (String, AccountData)| account_line(e.1@),
                ),
            decreases rows.len() - i,
        {
            let line = rows[i].1.to_line();
            let ghost before = views(lines@);
            lines.push(line);
            proof {
                assert(views(lines@) =~= before.push(account_line(rows@[i as int].1@)));
                assert(rows@.take(i + 1) =~= rows@.take(i as int).push(rows@[i as int]));
                assert(views(lines@) =~= rows@.take(i + 1).map_values(
                    |e: (String, AccountData)| account_line(e.1@),
                ));
            }
            i += 1;
        }
        assert(rows@.take(rows.len() as int) =~= rows@);
        to_string_lines(lines)
    }
}

} // verus!
