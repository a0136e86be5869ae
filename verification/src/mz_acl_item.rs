//! Privileges as SQL functions see them.

use vstd::prelude::*;

use crate::sql_parser::text::{
    chars_of, is_ascii, decimal, decimal_text, no_text, quote, quoted, text_eq, text_of, upper,
};
use crate::sqllogictest::format::{trimmed, trimmed_text};

verus! {

/// The identifier of a role.
#[derive(Debug, Copy, Clone, PartialEq, Eq, Structural)]
pub enum RoleId {
    System(u64),
    User(u64),
    Public,
}

/// How a role is written.
pub open spec fn role_text(id: RoleId) -> Seq<char> {
    match id {
        RoleId::System(n) => no_text() + "s"@ + decimal(n as nat),
        RoleId::User(n) => no_text() + "u"@ + decimal(n as nat),
        RoleId::Public => "p"@,
    }
}

impl RoleId {
    /// How the role is written.
    pub fn to_text(&self) -> (r: String)
        ensures
            r@ == role_text(*self),
    {
        match self {
            RoleId::System(n) => String::new().concat("s").concat(decimal_text(*n).as_str()),
            RoleId::User(n) => String::new().concat("u").concat(decimal_text(*n).as_str()),
            RoleId::Public => String::from_str("p"),
        }
    }
}

/// A set of privileges.
#[derive(Debug, Copy, Clone, PartialEq, Eq, Structural)]
pub struct AclMode {
    pub insert: bool,
    pub select: bool,
    pub update: bool,
    pub delete: bool,
    pub usage: bool,
    pub create: bool,
}

/// No privileges.
pub open spec fn no_privileges() -> AclMode {
    AclMode {
        insert: false,
        select: false,
        update: false,
        delete: false,
        usage: false,
        create: false,
    }
}

/// The privileges that are in one set or in the other.
pub open spec fn united(a: AclMode, b: AclMode) -> AclMode {
    AclMode {
        insert: a.insert || b.insert,
        select: a.select || b.select,
        update: a.update || b.update,
        delete: a.delete || b.delete,
        usage: a.usage || b.usage,
        create: a.create || b.create,
    }
}

/// A privilege's abbreviation, if it is in a set.
pub open spec fn abbreviation(present: bool, s: Seq<char>) -> Seq<char> {
    if present {
        s
    } else {
        no_text()
    }
}

/// A set of privileges as a list of abbreviations.
pub open spec fn mode_text(m: AclMode) -> Seq<char> {
    no_text() + abbreviation(m.insert, "a"@) + abbreviation(m.select, "r"@) + abbreviation(
        m.update,
        "w"@,
    ) + abbreviation(m.delete, "d"@) + abbreviation(m.usage, "U"@) + abbreviation(m.create, "C"@)
}

fn abbreviated(present: bool, s: &'static str) -> (r: &'static str)
    ensures
        r@ == abbreviation(present, s@),
{
    if present {
        s
    } else {
        let none = "";
        proof {
            reveal_strlit("");
            assert(none@ =~= no_text());
        }
        none
    }
}

impl AclMode {
    /// The privileges as a list of abbreviations.
    pub fn to_text(&self) -> (r: String)
        ensures
            r@ == mode_text(*self),
    {
        String::new().concat(abbreviated(self.insert, "a")).concat(abbreviated(self.select, "r")).concat(
            abbreviated(self.update, "w"),
        ).concat(abbreviated(self.delete, "d")).concat(abbreviated(self.usage, "U")).concat(
            abbreviated(self.create, "C"),
        )
    }
}

/// Privileges that one role granted to another.
#[derive(Debug, Copy, Clone, PartialEq, Eq, Structural)]
pub struct MzAclItem {
    pub grantee: RoleId,
    pub grantor: RoleId,
    pub acl_mode: AclMode,
}

/// The role that granted.
pub fn mz_acl_item_grantor(mz_acl_item: MzAclItem) -> (r: String)
    ensures
        r@ == role_text(mz_acl_item.grantor),
{
    mz_acl_item.grantor.to_text()
}

/// The role that was granted to.
pub fn mz_acl_item_grantee(mz_acl_item: MzAclItem) -> (r: String)
    ensures
        r@ == role_text(mz_acl_item.grantee),
{
    mz_acl_item.grantee.to_text()
}

/// The privileges that were granted.
pub fn mz_acl_item_privileges(mz_acl_item: MzAclItem) -> (r: String)
    ensures
        r@ == mode_text(mz_acl_item.acl_mode),
{
    mz_acl_item.acl_mode.to_text()
}

/// A text in uppercase, as Unicode has it.
pub uninterp spec fn uppercase(s: Seq<char>) -> Seq<char>;

/// `str::to_uppercase` depends on the text alone, and changes the letters of an ASCII text and
/// nothing else of it.
#[verifier::external_body]
fn to_uppercase(s: &str) -> (r: String)
    ensures
        r@ == uppercase(s@),
        is_ascii(s@) ==> r@ == upper(s@),
{
    s.to_uppercase()
}

/// A name in uppercase.
pub open spec fn raised(name: Seq<char>) -> Seq<char> {
    if is_ascii(name) {
        upper(name)
    } else {
        uppercase(name)
    }
}

/// The privilege that a name in uppercase stands for.
pub open spec fn privilege_named(name: Seq<char>) -> Option<AclMode> {
    if name == "INSERT"@ {
        Some(AclMode { insert: true, ..no_privileges() })
    } else if name == "SELECT"@ {
        Some(AclMode { select: true, ..no_privileges() })
    } else if name == "UPDATE"@ {
        Some(AclMode { update: true, ..no_privileges() })
    } else if name == "DELETE"@ {
        Some(AclMode { delete: true, ..no_privileges() })
    } else if name == "USAGE"@ {
        Some(AclMode { usage: true, ..no_privileges() })
    } else if name == "CREATE"@ {
        Some(AclMode { create: true, ..no_privileges() })
    } else {
        None
    }
}

/// The privilege that a name in uppercase stands for.
pub fn find_privilege(name: &str) -> (r: Option<AclMode>)
    ensures
        r == privilege_named(name@),
{
    let none = AclMode {
        insert: false,
        select: false,
        update: false,
        delete: false,
        usage: false,
        create: false,
    };
    if text_eq(name, "INSERT") {
        Some(AclMode { insert: true, ..none })
    } else if text_eq(name, "SELECT") {
        Some(AclMode { select: true, ..none })
    } else if text_eq(name, "UPDATE") {
        Some(AclMode { update: true, ..none })
    } else if text_eq(name, "DELETE") {
        Some(AclMode { delete: true, ..none })
    } else if text_eq(name, "USAGE") {
        Some(AclMode { usage: true, ..none })
    } else if text_eq(name, "CREATE") {
        Some(AclMode { create: true, ..none })
    } else {
        None
    }
}

/// Where the part of `s` that starts at `i` ends: at a comma, or at the end.
pub open spec fn part_end(s: Seq<char>, i: int) -> int
    decreases s.len() - i,
{
    if 0 <= i < s.len() && s[i] != ',' {
        part_end(s, i + 1)
    } else {
        i
    }
}

proof fn lemma_part_end(s: Seq<char>, i: int)
    requires
        0 <= i,
    ensures
        i <= part_end(s, i),
        i <= s.len() ==> part_end(s, i) <= s.len(),
    decreases s.len() - i,
{
    if i < s.len() {
        lemma_part_end(s, i + 1);
    }
}

/// The privileges that the parts of a list from `i` on name, or the first part that names none.
pub open spec fn privileges_from(s: Seq<char>, i: int) -> Result<AclMode, Seq<char>>
    decreases s.len() + 1 - i,
    when 0 <= i
    via privileges_decrease
{
    let end = part_end(s, i);
    let part = s.subrange(i, end);
    match privilege_named(raised(trimmed(part))) {
        None => Err(part),
        Some(m) => if end >= s.len() {
            Ok(m)
        } else {
            match privileges_from(s, end + 1) {
                Ok(rest) => Ok(united(m, rest)),
                Err(part) => Err(part),
            }
        },
    }
}

#[via_fn]
proof fn privileges_decrease(s: Seq<char>, i: int) {
    lemma_part_end(s, i);
}

/// What privileges together with those before them are.
spec fn together(before: AclMode, rest: Result<AclMode, Seq<char>>) -> Result<AclMode, Seq<char>> {
    match rest {
        Ok(m) => Ok(united(before, m)),
        Err(part) => Err(part),
    }
}

/// The privileges that a list separated by commas names, or the first part that names none.
pub fn parse_multiple_privileges(s: &str) -> (r: Result<AclMode, String>)
    requires
        s@.len() < usize::MAX,
    ensures
        match privileges_from(s@, 0) {
            Ok(m) => r == Ok::<AclMode, String>(m),
            Err(part) => r matches Err(e) && e@ == part,
        },
{
    let cs = chars_of(s);
    let mut mode = AclMode {
        insert: false,
        select: false,
        update: false,
        delete: false,
        usage: false,
        create: false,
    };
    let mut i: usize = 0;
    loop
        invariant
            cs@ == s@,
            i <= cs.len(),
            cs.len() < usize::MAX,
            privileges_from(s@, 0) == together(mode, privileges_from(s@, i as int)),
        decreases cs.len() - i,
    {
        let mut end: usize = i;
        while end < cs.len() && cs[end] != ','
            invariant
                cs@ == s@,
                i <= end <= cs.len(),
                part_end(s@, end as int) == part_end(s@, i as int),
            decreases cs.len() - end,
        {
            end += 1;
        }
        let part = text_of(&cs, i, end);
        let name = to_uppercase(trimmed_text(part.as_str()).as_str());
        match find_privilege(name.as_str()) {
            None => {
                return Err(part);
            },
            Some(m) => {
                mode = AclMode {
                    insert: mode.insert || m.insert,
                    select: mode.select || m.select,
                    update: mode.update || m.update,
                    delete: mode.delete || m.delete,
                    usage: mode.usage || m.usage,
                    create: mode.create || m.create,
                };
            },
        }
        if end >= cs.len() {
            return Ok(mode);
        }
        i = end + 1;
    }
}

/// Why a SQL function has no result.
#[derive(Debug)]
pub enum EvalError {
    /// What is not a privilege.
    InvalidPrivileges(String),
}

/// Whether a list separated by commas names privileges and nothing else: where it does not, it
/// is an error, with the first part that names none.
pub fn mz_validate_privileges(privileges: &str) -> (r: Result<bool, EvalError>)
    requires
        privileges@.len() < usize::MAX,
    ensures
        match privileges_from(privileges@, 0) {
            Ok(_) => r == Ok::<bool, EvalError>(true),
            Err(part) => r matches Err(EvalError::InvalidPrivileges(e)) && e@ == quoted(part),
        },
{
    match parse_multiple_privileges(privileges) {
        Ok(_) => Ok(true),
        Err(part) => Err(EvalError::InvalidPrivileges(quote(part.as_str()))),
    }
}

/// Each privilege has a name of its own, and other names are no privileges.
pub proof fn law_privilege_names(name: Seq<char>)
    ensures
        privilege_named("INSERT"@) == Some(AclMode { insert: true, ..no_privileges() }),
        privilege_named("SELECT"@) == Some(AclMode { select: true, ..no_privileges() }),
        privilege_named("UPDATE"@) == Some(AclMode { update: true, ..no_privileges() }),
        privilege_named("DELETE"@) == Some(AclMode { delete: true, ..no_privileges() }),
        privilege_named("USAGE"@) == Some(AclMode { usage: true, ..no_privileges() }),
        privilege_named("CREATE"@) == Some(AclMode { create: true, ..no_privileges() }),
        privilege_named(name) is Some ==> name == "INSERT"@ || name == "SELECT"@ || name == "UPDATE"@ || name
            == "DELETE"@ || name == "USAGE"@ || name == "CREATE"@,
{
    reveal_strlit("INSERT");
    reveal_strlit("SELECT");
    reveal_strlit("UPDATE");
    reveal_strlit("DELETE");
    reveal_strlit("USAGE");
    reveal_strlit("CREATE");
    assert("INSERT"@[0] == 'I' && "SELECT"@[0] == 'S' && "DELETE"@[0] == 'D' && "CREATE"@[0] == 'C');
    assert("UPDATE"@[0] == 'U' && "USAGE"@[0] == 'U' && "UPDATE"@[1] == 'P' && "USAGE"@[1] == 'S');
}

/// A list of privileges grants what its parts grant: a part before a comma and what the rest
/// grants.
pub proof fn law_privileges_united(s: Seq<char>, i: int, m: AclMode, rest: AclMode)
    requires
        0 <= i <= part_end(s, i) < s.len(),
        privilege_named(raised(trimmed(s.subrange(i, part_end(s, i))))) == Some(m),
        privileges_from(s, part_end(s, i) + 1) == Ok::<AclMode, Seq<char>>(rest),
    ensures
        privileges_from(s, i) matches Ok(all) && all.insert == (m.insert || rest.insert) && all.select == (
        m.select || rest.select) && all.update == (m.update || rest.update) && all.delete == (m.delete
            || rest.delete) && all.usage == (m.usage || rest.usage) && all.create == (m.create || rest.create),
{
}

/// A privilege is in the text of a set exactly where it is in the set, under its own letter.
pub proof fn law_mode_text(m: AclMode)
    ensures
        mode_text(m).contains('a') == m.insert,
        mode_text(m).contains('r') == m.select,
        mode_text(m).contains('w') == m.update,
        mode_text(m).contains('d') == m.delete,
        mode_text(m).contains('U') == m.usage,
        mode_text(m).contains('C') == m.create,
{
    reveal_strlit("a");
    reveal_strlit("r");
    reveal_strlit("w");
    reveal_strlit("d");
    reveal_strlit("U");
    reveal_strlit("C");
    let x1 = abbreviation(m.insert, "a"@);
    let x2 = abbreviation(m.select, "r"@);
    let x3 = abbreviation(m.update, "w"@);
    let x4 = abbreviation(m.delete, "d"@);
    let x5 = abbreviation(m.usage, "U"@);
    let x6 = abbreviation(m.create, "C"@);
    lemma_letters(no_text(), x1);
    lemma_letters(no_text() + x1, x2);
    lemma_letters(no_text() + x1 + x2, x3);
    lemma_letters(no_text() + x1 + x2 + x3, x4);
    lemma_letters(no_text() + x1 + x2 + x3 + x4, x5);
    lemma_letters(no_text() + x1 + x2 + x3 + x4 + x5, x6);
    lemma_letter(m.insert, "a"@);
    lemma_letter(m.select, "r"@);
    lemma_letter(m.update, "w"@);
    lemma_letter(m.delete, "d"@);
    lemma_letter(m.usage, "U"@);
    lemma_letter(m.create, "C"@);
}

proof fn lemma_letters(a: Seq<char>, b: Seq<char>)
    ensures
        forall|c: char| #[trigger] (a + b).contains(c) == (a.contains(c) || b.contains(c)),
{
    assert forall|c: char| #[trigger] (a + b).contains(c) == (a.contains(c) || b.contains(c)) by {
        if a.contains(c) {
            let k = a.index_of(c);
            assert((a + b)[k] == c);
        }
        if b.contains(c) {
            let k = b.index_of(c);
            assert((a + b)[a.len() + k] == c);
        }
        if (a + b).contains(c) {
            let k = (a + b).index_of(c);
            if k < a.len() {
                assert(a[k] == c);
            } else {
                assert(b[k - a.len()] == c);
            }
        }
    }
}

proof fn lemma_letter(present: bool, s: Seq<char>)
    requires
        s.len() == 1,
    ensures
        forall|c: char| #[trigger] abbreviation(present, s).contains(c) == (present && c == s[0]),
{
    assert forall|c: char| #[trigger] abbreviation(present, s).contains(c) == (present && c == s[0]) by {
        if present && c == s[0] {
            assert(abbreviation(present, s)[0] == c);
        }
    }
}

} // verus!
