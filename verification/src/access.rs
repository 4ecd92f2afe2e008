//! Users, roles and privileges.
use vstd::prelude::*;
use vstd::string::*;

use crate::catalog::{lookup, saved, Catalog, CatalogState, RoleNames};
use crate::catalog_types::{Privilege, PrivilegeView, RoleDef, RoleView, UserDef, UserView};
use crate::dup::{views, Dup};
use crate::functions::{find_ci, find_ci_offset};
use crate::namemap::NameMap;
use crate::sql_helpers::{first_word, is_reading_word, leading_word, reading_word};
use crate::text::{
    concat2, concat3, contains_text, cuttable, opt_text, same, slice_from, split_whitespace,
    tail_at, texts, trim, trim_end_matches, trim_end_matches_text, trim_matches,
    trim_matches_text, trim_text, upper_text, utf8, words,
};

verus! {

// ---------------------------------------------------------------------------
// What a user may do
// ---------------------------------------------------------------------------

/// Whether a privilege is one on everything: on every action, and on all tables.
pub open spec fn is_admin_privilege(p: PrivilegeView) -> bool {
    &&& p.kind == "ALL"@ || p.kind == "*"@
    &&& p.table is None
}

/// Whether a role holds a privilege on everything.
pub open spec fn is_admin_role(role: RoleView) -> bool {
    exists|i: int| 0 <= i < role.privileges.len() && is_admin_privilege(#[trigger] role.privileges[i])
}

/// Whether the user has the given role and the role satisfies what is asked of it.
pub open spec fn has_role(c: CatalogState, user: Seq<char>, name: Seq<char>) -> bool {
    &&& c.user_roles.dom().contains(user)
    &&& c.user_roles[user].contains(name)
    &&& c.roles.dom().contains(name)
}

/// Whether one of the user's roles holds a privilege on everything.
pub open spec fn is_admin(c: CatalogState, user: Seq<char>) -> bool {
    exists|name: Seq<char>| #[trigger] has_role(c, user, name) && is_admin_role(c.roles[name])
}

/// Whether a privilege allows an action on a table. One without a table allows it on all tables.
pub open spec fn covers(p: PrivilegeView, action: Seq<char>, table: Option<Seq<char>>) -> bool {
    &&& p.kind == "ALL"@ || p.kind == action
    &&& p.table is None || p.table == table
}

/// Whether a role allows an action on a table.
pub open spec fn role_covers(role: RoleView, action: Seq<char>, table: Option<Seq<char>>) -> bool {
    exists|i: int| 0 <= i < role.privileges.len() && covers(#[trigger] role.privileges[i], action, table)
}

/// Whether a user may perform an action on a table, or, without a table, on all tables.
pub open spec fn has_privilege(
    c: CatalogState,
    user: Seq<char>,
    action: Seq<char>,
    table: Option<Seq<char>>,
) -> bool {
    ||| is_admin(c, user)
    ||| exists|name: Seq<char>| #[trigger]
        has_role(c, user, name) && role_covers(c.roles[name], action, table)
}

/// The error with which a statement of the user is refused, given its first word in upper case.
/// Every statement that only reads asks for the privilege `SELECT`.
pub open spec fn refusal(c: CatalogState, user: Seq<char>, action: Seq<char>) -> Option<Seq<char>> {
    if is_admin(c, user) {
        None
    } else if is_reading_word(action) {
        if has_privilege(c, user, "SELECT"@, None) {
            None
        } else {
            Some("permission denied for user '"@ + user + "' on "@ + action)
        }
    } else if has_privilege(c, user, action, None) {
        None
    } else {
        Some("permission denied for user '"@ + user + "' on statement '"@ + action + "'"@)
    }
}

fn admin_role(role: &RoleDef) -> (r: bool)
    ensures
        r == is_admin_role(role@),
{
    let mut i: usize = 0;
    while i < role.privileges.len()
        invariant
            i <= role.privileges@.len(),
            forall|j: int| 0 <= j < i ==> !is_admin_privilege(#[trigger] role@.privileges[j]),
        decreases role.privileges@.len() - i,
    {
        assert(role@.privileges[i as int] == role.privileges@[i as int]@);
        let p = &role.privileges[i];
        if (same(&p.kind, "ALL") || same(&p.kind, "*")) && p.table.is_none() {
            return true;
        }
        i += 1;
    }
    false
}

/// Whether two optional texts are the same.
pub fn same_option(a: &Option<String>, b: &Option<String>) -> (r: bool)
    ensures
        r == (opt_text(*a) == opt_text(*b)),
{
    match (a, b) {
        (Some(x), Some(y)) => same(x, y),
        (None, None) => true,
        _ => false,
    }
}

fn covering_role(role: &RoleDef, action: &str, table: &Option<String>) -> (r: bool)
    ensures
        r == role_covers(role@, action@, opt_text(*table)),
{
    let mut i: usize = 0;
    while i < role.privileges.len()
        invariant
            i <= role.privileges@.len(),
            forall|j: int|
                0 <= j < i ==> !covers(
                    #[trigger] role@.privileges[j],
                    action@,
                    opt_text(*table),
                ),
        decreases role.privileges@.len() - i,
    {
        assert(role@.privileges[i as int] == role.privileges@[i as int]@);
        let p = &role.privileges[i];
        if (same(&p.kind, "ALL") || same(&p.kind, action)) && (p.table.is_none() || same_option(
            &p.table,
            table,
        )) {
            return true;
        }
        i += 1;
    }
    false
}

impl Catalog {
    /// Whether one of the user's roles holds a privilege on everything.
    pub fn user_is_admin(&self, user: &str) -> (r: bool)
        requires
            self.wf(),
        ensures
            r == is_admin(self@, user@),
    {
        match self.user_roles.lookup(user) {
            None => false,
            Some(list) => {
                let mut i: usize = 0;
                while i < list.names.len()
                    invariant
                        self.wf(),
                        i <= list.names@.len(),
                        self@.user_roles.dom().contains(user@),
                        self@.user_roles[user@] == list@,
                        forall|j: int|
                            0 <= j < i ==> !(self@.roles.dom().contains(#[trigger] list@[j])
                                && is_admin_role(self@.roles[list@[j]])),
                    decreases list.names@.len() - i,
                {
                    assert(list@[i as int] == list.names@[i as int]@);
                    if let Some(role) = self.roles.lookup(&list.names[i]) {
                        if admin_role(role) {
                            assert(has_role(self@, user@, list@[i as int]));
                            return true;
                        }
                    }
                    i += 1;
                }
                assert forall|name: Seq<char>| #[trigger]
                    has_role(self@, user@, name) implies !is_admin_role(self@.roles[name]) by {
                    let j = choose|j: int| 0 <= j < list@.len() && list@[j] == name;
                    assert(list@[j] == name);
                }
                false
            },
        }
    }

    /// Whether a user may perform an action on a table, or, without a table, on all tables.
    pub fn user_has_privilege(&self, user: &str, action: &str, table: &Option<String>) -> (r: bool)
        requires
            self.wf(),
        ensures
            r == has_privilege(self@, user@, action@, opt_text(*table)),
    {
        if self.user_is_admin(user) {
            return true;
        }
        match self.user_roles.lookup(user) {
            None => false,
            Some(list) => {
                let ghost t = opt_text(*table);
                let mut i: usize = 0;
                while i < list.names.len()
                    invariant
                        self.wf(),
                        i <= list.names@.len(),
                        t == opt_text(*table),
                        self@.user_roles.dom().contains(user@),
                        self@.user_roles[user@] == list@,
                        forall|j: int|
                            0 <= j < i ==> !(self@.roles.dom().contains(#[trigger] list@[j])
                                && role_covers(self@.roles[list@[j]], action@, t)),
                    decreases list.names@.len() - i,
                {
                    assert(list@[i as int] == list.names@[i as int]@);
                    if let Some(role) = self.roles.lookup(&list.names[i]) {
                        if covering_role(role, action, table) {
                            assert(has_role(self@, user@, list@[i as int]));
                            return true;
                        }
                    }
                    i += 1;
                }
                assert forall|name: Seq<char>| #[trigger]
                    has_role(self@, user@, name) implies !role_covers(
                    self@.roles[name],
                    action@,
                    t,
                ) by {
                    let j = choose|j: int| 0 <= j < list@.len() && list@[j] == name;
                    assert(list@[j] == name);
                }
                false
            },
        }
    }

    /// Refuses a statement that the user has no privilege for, given its first word in upper case.
    pub fn refuse_action(&self, user: &str, action: &str) -> (r: Result<(), String>)
        requires
            self.wf(),
        ensures
            match r {
                Ok(()) => refusal(self@, user@, action@) is None,
                Err(e) => refusal(self@, user@, action@) == Some(e@),
            },
    {
        if self.user_is_admin(user) {
            return Ok(());
        }
        if reading_word(action) {
            if !self.user_has_privilege(user, "SELECT", &None) {
                return Err(concat2(&concat3("permission denied for user '", user, "' on "), action));
            }
            return Ok(());
        }
        if !self.user_has_privilege(user, action, &None) {
            return Err(
                concat3(
                    &concat3("permission denied for user '", user, "' on statement '"),
                    action,
                    "'",
                ),
            );
        }
        Ok(())
    }

    /// Refuses a statement that the user has no privilege for.
    pub fn enforce_access(&self, user: &str, sql: &str) -> (r: Result<(), String>)
        requires
            self.wf(),
        ensures
            match r {
                Ok(()) => refusal(self@, user@, upper_text(first_word(sql@))) is None,
                Err(e) => refusal(self@, user@, upper_text(first_word(sql@))) == Some(e@),
            },
    {
        let action = leading_word(sql).to_uppercase();
        self.refuse_action(user, &action)
    }
}

// ---------------------------------------------------------------------------
// CREATE USER and CREATE ROLE
// ---------------------------------------------------------------------------

/// The words of a statement without semicolons at its end.
pub open spec fn statement_words(sql: Seq<char>) -> Seq<Seq<char>> {
    words(trim_end_matches_text(trim_text(sql), ';'))
}

/// The words of a statement without semicolons at its end.
pub fn split_statement(sql: &str) -> (r: Vec<String>)
    ensures
        texts(r@) == statement_words(sql@),
        r@.len() == statement_words(sql@).len(),
        forall|i: int| 0 <= i < r@.len() ==> statement_words(sql@)[i] == (#[trigger] r@[i])@,
{
    let w = split_whitespace(&trim_end_matches(&trim(sql), ';'));
    proof {
        assert(texts(w@).len() == w@.len());
        assert forall|i: int| 0 <= i < w@.len() implies statement_words(sql@)[i] == (
        #[trigger] w@[i])@ by {
            assert(texts(w@)[i] == w@[i]@);
        }
    }
    w
}

/// The user that a `CREATE USER` statement describes; `None` where it cannot be cut behind the word
/// `PASSWORD`.
pub open spec fn described_user(sql: Seq<char>) -> Option<Result<UserView, Seq<char>>> {
    let w = statement_words(sql);
    if w.len() < 3 {
        Some(Err("CREATE USER requires a name"@))
    } else {
        let name = trim_matches_text(w[2], '"');
        match find_ci_offset(sql, "PASSWORD"@) {
            None => Some(Ok(UserView { name, password: Seq::empty() })),
            Some(at) => {
                let from = at + utf8("PASSWORD"@).len();
                if cuttable(sql, from) {
                    Some(
                        Ok(
                            UserView {
                                name,
                                password: trim_end_matches_text(
                                    trim_matches_text(
                                        trim_matches_text(trim_text(tail_at(sql, from)), '\''),
                                        '"',
                                    ),
                                    ';',
                                ),
                            },
                        ),
                    )
                } else {
                    None
                }
            },
        }
    }
}

/// The user that a `CREATE USER` statement describes.
pub fn parse_create_user(sql: &str) -> (r: Option<Result<UserDef, String>>)
    ensures
        match r {
            None => described_user(sql@) is None,
            Some(Ok(u)) => described_user(sql@) == Some(Ok::<UserView, Seq<char>>(u@)),
            Some(Err(e)) => described_user(sql@) == Some(Err::<UserView, Seq<char>>(e@)),
        },
{
    let w = split_statement(sql);
    if w.len() < 3 {
        return Some(Err("CREATE USER requires a name".to_owned()));
    }
    let name = trim_matches(&w[2], '"');
    match find_ci(sql, "PASSWORD") {
        None => Some(Ok(UserDef { name, password: String::new() })),
        Some(at) => {
            let n: usize = "PASSWORD".as_bytes().len();
            match slice_from(sql, at, n) {
                None => None,
                Some(tail) => {
                    let password = trim_end_matches(
                        &trim_matches(&trim_matches(&trim(&tail), '\''), '"'),
                        ';',
                    );
                    Some(Ok(UserDef { name, password }))
                },
            }
        },
    }
}

/// The catalog with a user, who keeps the roles that the name had before.
pub open spec fn with_user(c: CatalogState, user: UserView) -> CatalogState {
    CatalogState {
        users: c.users.insert(user.name, user),
        user_roles: if c.user_roles.dom().contains(user.name) {
            c.user_roles
        } else {
            c.user_roles.insert(user.name, Seq::empty())
        },
        ..c
    }
}

/// The role that a `CREATE ROLE` statement names.
pub open spec fn described_role(sql: Seq<char>) -> Result<Seq<char>, Seq<char>> {
    let w = statement_words(sql);
    if w.len() < 3 {
        Err("CREATE ROLE requires a name"@)
    } else {
        Ok(trim_matches_text(w[2], '"'))
    }
}

/// The catalog with a role, which keeps the privileges that it had before.
pub open spec fn with_role(c: CatalogState, name: Seq<char>) -> CatalogState {
    CatalogState {
        roles: if c.roles.dom().contains(name) {
            c.roles
        } else {
            c.roles.insert(name, RoleView { name, privileges: Seq::empty() })
        },
        ..c
    }
}

impl Catalog {
    /// Adds a user.
    pub fn add_user(&mut self, user: UserDef)
        requires
            old(self).wf(),
        ensures
            final(self).wf(),
            final(self)@ == with_user(old(self)@, user@),
            saved(old(self), final(self)),
    {
        let name = user.name.clone();
        let again = user.name.clone();
        self.users.put(name, user);
        if !self.user_roles.contains_key(&again) {
            let none = RoleNames { names: Vec::new() };
            assert(none@ == Seq::<Seq<char>>::empty());
            self.user_roles.put(again, none);
        }
        self.save();
        assert(self@ =~= with_user(old(self)@, user@));
    }

    /// Adds a role without privileges, unless there is one of that name.
    pub fn ensure_role(&mut self, name: &str)
        requires
            old(self).wf(),
        ensures
            final(self).wf(),
            final(self)@ == with_role(old(self)@, name@),
            final(self).in_transaction == old(self).in_transaction,
            final(self).dirty == old(self).dirty,
    {
        if !self.roles.contains_key(name) {
            let role = RoleDef { name: name.to_owned(), privileges: Vec::new() };
            assert(role@ == RoleView { name: name@, privileges: Seq::empty() }) by {
                assert(views(role.privileges@) == Seq::<PrivilegeView>::empty());
            }
            self.roles.put(name.to_owned(), role);
        }
        assert(self@ =~= with_role(old(self)@, name@));
    }

    /// Carries out a `CREATE USER` statement, and returns the message; `None` where the statement
    /// cannot be cut behind the word `PASSWORD`.
    pub fn handle_create_user(&mut self, sql: &str) -> (r: Option<Result<String, String>>)
        requires
            old(self).wf(),
        ensures
            final(self).wf(),
            match described_user(sql@) {
                None => r is None && *final(self) == *old(self),
                Some(Err(e)) => r matches Some(Err(m)) && m@ == e && *final(self) == *old(self),
                Some(Ok(u)) => {
                    &&& r matches Some(Ok(m)) && m@ == "User '"@ + u.name + "' created."@
                    &&& final(self)@ == with_user(old(self)@, u)
                    &&& saved(old(self), final(self))
                },
            },
    {
        match parse_create_user(sql) {
            None => None,
            Some(Err(e)) => Some(Err(e)),
            Some(Ok(user)) => {
                let msg = concat3("User '", &user.name, "' created.");
                self.add_user(user);
                Some(Ok(msg))
            },
        }
    }

    /// Carries out a `CREATE ROLE` statement, and returns the message.
    pub fn handle_create_role(&mut self, sql: &str) -> (r: Result<String, String>)
        requires
            old(self).wf(),
        ensures
            final(self).wf(),
            match described_role(sql@) {
                Err(e) => r matches Err(m) && m@ == e && *final(self) == *old(self),
                Ok(name) => {
                    &&& r matches Ok(m) && m@ == "Role '"@ + name + "' created."@
                    &&& final(self)@ == with_role(old(self)@, name)
                    &&& saved(old(self), final(self))
                },
            },
    {
        let w = split_statement(sql);
        if w.len() < 3 {
            return Err("CREATE ROLE requires a name".to_owned());
        }
        let role = trim_matches(&w[2], '"');
        self.ensure_role(&role);
        self.save();
        Ok(concat3("Role '", &role, "' created."))
    }
}

// ---------------------------------------------------------------------------
// GRANT and REVOKE
// ---------------------------------------------------------------------------

/// What a `GRANT` or `REVOKE` statement is about.
pub struct Grant {
    /// The kind of privilege, in upper case.
    pub privilege: String,
    pub table: String,
    /// The role or user.
    pub target: String,
}

/// What a [`Grant`] says.
pub struct GrantView {
    pub privilege: Seq<char>,
    pub table: Seq<char>,
    pub target: Seq<char>,
}

impl View for Grant {
    type V = GrantView;

    open spec fn view(&self) -> GrantView {
        GrantView { privilege: self.privilege@, table: self.table@, target: self.target@ }
    }
}

/// The privilege, the table and the target that a `GRANT` or `REVOKE` statement names, if it has
/// enough words.
pub open spec fn described_grant(sql: Seq<char>) -> Option<GrantView> {
    let w = statement_words(sql);
    if w.len() < 6 {
        None
    } else {
        Some(
            GrantView {
                privilege: upper_text(w[1]),
                table: trim_matches_text(w[3], '"'),
                target: trim_matches_text(w.last(), '"'),
            },
        )
    }
}

/// The privilege, the table and the target that a `GRANT` or `REVOKE` statement names.
pub fn parse_grant(sql: &str) -> (r: Option<Grant>)
    ensures
        match r {
            Some(g) => described_grant(sql@) == Some(g@),
            None => described_grant(sql@) is None,
        },
{
    let w = split_statement(sql);
    if w.len() < 6 {
        return None;
    }
    let privilege = w[1].to_uppercase();
    let table = trim_matches(&w[3], '"');
    let target = trim_matches(&w[w.len() - 1], '"');
    Some(Grant { privilege, table, target })
}

/// The privilege that a grant gives.
pub open spec fn granted_privilege(g: GrantView) -> PrivilegeView {
    PrivilegeView { kind: g.privilege, table: Some(g.table) }
}

/// The role that holds what is granted: a user has a role of its own.
pub open spec fn grantee_role(c: CatalogState, target: Seq<char>) -> Seq<char> {
    if c.users.dom().contains(target) {
        "__user_"@ + target
    } else {
        target
    }
}

/// The privileges with one more, unless it is among them.
pub open spec fn with_privilege(ps: Seq<PrivilegeView>, p: PrivilegeView) -> Seq<PrivilegeView> {
    if ps.contains(p) {
        ps
    } else {
        ps.push(p)
    }
}

/// The list with one more name, unless it is among them.
pub open spec fn with_name(names: Seq<Seq<char>>, name: Seq<char>) -> Seq<Seq<char>> {
    if names.contains(name) {
        names
    } else {
        names.push(name)
    }
}

/// The catalog after a grant: the role holds the privilege, and a user has the role.
pub open spec fn granted(c: CatalogState, g: GrantView) -> CatalogState {
    let role = grantee_role(c, g.target);
    let before = with_role(c, role).roles[role];
    let roles = c.roles.insert(
        role,
        RoleView {
            privileges: with_privilege(before.privileges, granted_privilege(g)),
            ..before
        },
    );
    if c.users.dom().contains(g.target) {
        let names = if c.user_roles.dom().contains(g.target) {
            c.user_roles[g.target]
        } else {
            Seq::empty()
        };
        CatalogState {
            roles,
            user_roles: c.user_roles.insert(g.target, with_name(names, role)),
            ..c
        }
    } else {
        CatalogState { roles, ..c }
    }
}

/// The privileges other than the given one.
pub open spec fn without_privilege(
    ps: Seq<PrivilegeView>,
    p: PrivilegeView,
) -> Seq<PrivilegeView>
    decreases ps.len(),
{
    if ps.len() == 0 {
        Seq::empty()
    } else if ps.last() == p {
        without_privilege(ps.drop_last(), p)
    } else {
        without_privilege(ps.drop_last(), p).push(ps.last())
    }
}

/// The catalog after a revocation: the role, if there is one, does not hold the privilege.
pub open spec fn revoked(c: CatalogState, g: GrantView) -> CatalogState {
    let role = grantee_role(c, g.target);
    if c.roles.dom().contains(role) {
        CatalogState {
            roles: c.roles.insert(
                role,
                RoleView {
                    privileges: without_privilege(c.roles[role].privileges, granted_privilege(g)),
                    ..c.roles[role]
                },
            ),
            ..c
        }
    } else {
        c
    }
}

fn same_privilege(a: &Privilege, b: &Privilege) -> (r: bool)
    ensures
        r == (a@ == b@),
{
    same(&a.kind, &b.kind) && same_option(&a.table, &b.table)
}

fn holds_privilege(ps: &Vec<Privilege>, p: &Privilege) -> (r: bool)
    ensures
        r == views(ps@).contains(p@),
{
    let mut i: usize = 0;
    while i < ps.len()
        invariant
            i <= ps@.len(),
            forall|j: int| 0 <= j < i ==> #[trigger] views(ps@)[j] != p@,
        decreases ps@.len() - i,
    {
        if same_privilege(&ps[i], p) {
            assert(views(ps@)[i as int] == p@);
            return true;
        }
        i += 1;
    }
    false
}

impl Catalog {
    fn add_privilege(&mut self, role: &str, p: Privilege)
        requires
            old(self).wf(),
        ensures
            final(self).wf(),
            final(self)@ == (CatalogState {
                roles: old(self)@.roles.insert(
                    role@,
                    RoleView {
                        privileges: with_privilege(
                            with_role(old(self)@, role@).roles[role@].privileges,
                            p@,
                        ),
                        ..with_role(old(self)@, role@).roles[role@]
                    },
                ),
                ..old(self)@
            }),
            final(self).in_transaction == old(self).in_transaction,
            final(self).dirty == old(self).dirty,
    {
        self.ensure_role(role);
        let ghost mid = self@;
        let ghost goal = CatalogState {
            roles: old(self)@.roles.insert(
                role@,
                RoleView {
                    privileges: with_privilege(mid.roles[role@].privileges, p@),
                    ..mid.roles[role@]
                },
            ),
            ..old(self)@
        };
        match self.roles.position(role) {
            None => {},
            Some(i) => {
                let ghost before = self.roles;
                let ghost pv = p@;
                if !holds_privilege(&self.roles.vals[i].privileges, &p) {
                    let def = self.roles.at_mut(i);
                    let ghost old_ps = def.privileges@;
                    def.privileges.push(p);
                    proof {
                        assert(views(self.roles.vals@[i as int].privileges@) == views(
                            old_ps,
                        ).push(pv));
                        NameMap::lemma_deep_update(&before, &self.roles, i as int);
                        assert(self@.roles =~= goal.roles);
                    }
                } else {
                    assert(mid.roles =~= goal.roles);
                }
                assert(self@ =~= goal);
            },
        }
    }

    fn give_role(&mut self, user: &str, role: &str)
        requires
            old(self).wf(),
        ensures
            final(self).wf(),
            final(self)@ == (CatalogState {
                user_roles: old(self)@.user_roles.insert(
                    user@,
                    with_name(
                        if old(self)@.user_roles.dom().contains(user@) {
                            old(self)@.user_roles[user@]
                        } else {
                            Seq::empty()
                        },
                        role@,
                    ),
                ),
                ..old(self)@
            }),
            final(self).in_transaction == old(self).in_transaction,
            final(self).dirty == old(self).dirty,
    {
        let mut names: Vec<String> = Vec::new();
        if let Some(list) = self.user_roles.lookup(user) {
            names = crate::text::clone_strings(&list.names);
        } else {
            assert(texts(names@) == Seq::<Seq<char>>::empty());
        }
        let ghost before = texts(names@);
        if !contains_text(&names, role) {
            names.push(role.to_owned());
            assert(texts(names@) == before.push(role@));
        }
        self.user_roles.put(user.to_owned(), RoleNames { names });
    }

    /// Gives a privilege to a role, or to a user by way of the user's own role.
    pub fn grant(&mut self, g: &Grant)
        requires
            old(self).wf(),
        ensures
            final(self).wf(),
            final(self)@ == granted(old(self)@, g@),
            saved(old(self), final(self)),
    {
        let p = Privilege { kind: g.privilege.clone(), table: Some(g.table.clone()) };
        assert(p@ == granted_privilege(g@));
        if self.users.contains_key(&g.target) {
            let role = concat2("__user_", &g.target);
            self.add_privilege(&role, p);
            self.give_role(&g.target, &role);
        } else {
            self.add_privilege(&g.target, p);
        }
        self.save();
        assert(self@ =~= granted(old(self)@, g@));
    }

    /// Takes a privilege from a role, or from a user's own role.
    pub fn revoke(&mut self, g: &Grant)
        requires
            old(self).wf(),
        ensures
            final(self).wf(),
            final(self)@ == revoked(old(self)@, g@),
            saved(old(self), final(self)),
    {
        let p = Privilege { kind: g.privilege.clone(), table: Some(g.table.clone()) };
        assert(p@ == granted_privilege(g@));
        let role = if self.users.contains_key(&g.target) {
            concat2("__user_", &g.target)
        } else {
            g.target.clone()
        };
        match self.roles.position(&role) {
            None => {},
            Some(i) => {
                let ghost before = self.roles;
                let ghost all = views(self.roles.vals@[i as int].privileges@);
                let mut kept: Vec<Privilege> = Vec::new();
                let mut k: usize = 0;
                assert(views(kept@) == Seq::<PrivilegeView>::empty());
                while k < self.roles.vals[i].privileges.len()
                    invariant
                        self.roles == before,
                        i < self.roles.vals@.len(),
                        k <= self.roles.vals@[i as int].privileges@.len(),
                        all == views(self.roles.vals@[i as int].privileges@),
                        views(kept@) == without_privilege(all.subrange(0, k as int), p@),
                    decreases self.roles.vals@[i as int].privileges@.len() - k,
                {
                    let ghost next = all.subrange(0, k + 1);
                    let ghost done = kept@;
                    assert(next.drop_last() == all.subrange(0, k as int));
                    let q = &self.roles.vals[i].privileges[k];
                    assert(next.last() == q@);
                    if !same_privilege(q, &p) {
                        let copy = q.dup();
                        kept.push(copy);
                        assert(views(kept@) == views(done).push(q@));
                    }
                    k += 1;
                }
                assert(all.subrange(0, k as int) == all);
                let ghost kv = views(kept@);
                let def = self.roles.at_mut(i);
                def.privileges = kept;
                proof {
                    NameMap::lemma_deep_update(&before, &self.roles, i as int);
                    before.lemma_deep_entry(i as int);
                    assert(self@ =~= revoked(old(self)@, g@));
                }
            },
        }
        self.save();
    }

    /// Carries out a `GRANT` statement, and returns the message.
    pub fn handle_grant(&mut self, sql: &str) -> (r: Result<String, String>)
        requires
            old(self).wf(),
        ensures
            final(self).wf(),
            match described_grant(sql@) {
                None => {
                    &&& r matches Err(m) && m@
                        == "GRANT syntax: GRANT <PRIV> ON <TABLE> TO <ROLE|USER>"@
                    &&& *final(self) == *old(self)
                },
                Some(g) => {
                    &&& r matches Ok(m) && m@ == "Granted '"@ + g.privilege + "' to '"@ + g.target
                        + "'."@
                    &&& final(self)@ == granted(old(self)@, g)
                    &&& saved(old(self), final(self))
                },
            },
    {
        match parse_grant(sql) {
            None => Err("GRANT syntax: GRANT <PRIV> ON <TABLE> TO <ROLE|USER>".to_owned()),
            Some(g) => {
                self.grant(&g);
                Ok(concat3(&concat3("Granted '", &g.privilege, "' to '"), &g.target, "'."))
            },
        }
    }

    /// Carries out a `REVOKE` statement, and returns the message.
    pub fn handle_revoke(&mut self, sql: &str) -> (r: Result<String, String>)
        requires
            old(self).wf(),
        ensures
            final(self).wf(),
            match described_grant(sql@) {
                None => {
                    &&& r matches Err(m) && m@
                        == "REVOKE syntax: REVOKE <PRIV> ON <TABLE> FROM <ROLE|USER>"@
                    &&& *final(self) == *old(self)
                },
                Some(g) => {
                    &&& r matches Ok(m) && m@ == "Revoked '"@ + g.privilege + "' from '"@ + g.target
                        + "'."@
                    &&& final(self)@ == revoked(old(self)@, g)
                    &&& saved(old(self), final(self))
                },
            },
    {
        match parse_grant(sql) {
            None => Err("REVOKE syntax: REVOKE <PRIV> ON <TABLE> FROM <ROLE|USER>".to_owned()),
            Some(g) => {
                self.revoke(&g);
                Ok(concat3(&concat3("Revoked '", &g.privilege, "' from '"), &g.target, "'."))
            },
        }
    }
}

// ---------------------------------------------------------------------------
// Laws
// ---------------------------------------------------------------------------

/// A user to whom a privilege on a table was granted may perform the action on that table.
pub proof fn law_grant_allows(c: CatalogState, g: GrantView)
    requires
        c.users.dom().contains(g.target),
    ensures
        has_privilege(granted(c, g), g.target, g.privilege, Some(g.table)),
{
    let d = granted(c, g);
    let role = grantee_role(c, g.target);
    let before = with_role(c, role).roles[role];
    let ps = with_privilege(before.privileges, granted_privilege(g));
    assert(d.roles[role].privileges == ps);
    let p = granted_privilege(g);
    assert(ps.contains(p)) by {
        if !before.privileges.contains(p) {
            assert(ps[ps.len() - 1] == p);
        }
    }
    let i = choose|i: int| 0 <= i < ps.len() && ps[i] == p;
    assert(covers(d.roles[role].privileges[i], g.privilege, Some(g.table)));
    let names = if c.user_roles.dom().contains(g.target) {
        c.user_roles[g.target]
    } else {
        Seq::empty()
    };
    assert(with_name(names, role).contains(role)) by {
        if !names.contains(role) {
            assert(names.push(role)[names.len() as int] == role);
        }
    }
    assert(has_role(d, g.target, role));
}

/// A user all of whose privileges are on other tables may do nothing on a table, whatever the
/// privileges are.
pub proof fn law_privileges_stay_on_their_tables(
    c: CatalogState,
    user: Seq<char>,
    action: Seq<char>,
    table: Seq<char>,
)
    requires
        forall|name: Seq<char>, i: int|
            #![trigger has_role(c, user, name), c.roles[name].privileges[i]]
            has_role(c, user, name) && 0 <= i < c.roles[name].privileges.len()
                ==> c.roles[name].privileges[i].table is Some
                && c.roles[name].privileges[i].table != Some(table),
    ensures
        !is_admin(c, user),
        !has_privilege(c, user, action, Some(table)),
{
}

/// Granting the same privilege twice is the same as granting it once.
pub proof fn law_grant_twice(c: CatalogState, g: GrantView)
    ensures
        granted(granted(c, g), g) == granted(c, g),
{
    let d = granted(c, g);
    let role = grantee_role(c, g.target);
    let before = with_role(c, role).roles[role];
    let p = granted_privilege(g);
    let ps = with_privilege(before.privileges, p);
    assert(ps.contains(p)) by {
        if !before.privileges.contains(p) {
            assert(ps[ps.len() - 1] == p);
        }
    }
    assert(grantee_role(d, g.target) == role);
    assert(granted(d, g).roles =~= d.roles);
    if c.users.dom().contains(g.target) {
        let names = if c.user_roles.dom().contains(g.target) {
            c.user_roles[g.target]
        } else {
            Seq::empty()
        };
        assert(with_name(names, role).contains(role)) by {
            if !names.contains(role) {
                assert(names.push(role)[names.len() as int] == role);
            }
        }
        assert(granted(d, g).user_roles =~= d.user_roles);
    }
    assert(granted(d, g) =~= d);
}

proof fn lemma_without_privilege(ps: Seq<PrivilegeView>, p: PrivilegeView)
    ensures
        !without_privilege(ps, p).contains(p),
        !ps.contains(p) ==> without_privilege(ps, p) == ps,
        !ps.contains(p) ==> without_privilege(ps.push(p), p) == ps,
    decreases ps.len(),
{
    if ps.len() > 0 {
        let head = ps.drop_last();
        lemma_without_privilege(head, p);
        let w = without_privilege(head, p);
        if ps.last() != p {
            assert forall|i: int| 0 <= i < w.push(ps.last()).len() implies w.push(ps.last())[i]
                != p by {
                if i < w.len() {
                    assert(w.contains(w[i]));
                }
            }
        }
        if !ps.contains(p) {
            assert(ps[ps.len() - 1] == ps.last());
            assert forall|i: int| 0 <= i < head.len() implies head[i] != p by {
                assert(ps.contains(ps[i]));
            }
            assert(head.push(ps.last()) == ps);
        }
    }
    assert(ps.push(p).drop_last() == ps);
    assert(ps.push(p).last() == p);
    assert(without_privilege(ps.push(p), p) == without_privilege(ps, p));
    if !ps.contains(p) && ps.len() > 0 {
        assert(without_privilege(ps, p) == ps);
    }
}

/// After a revocation the role of the target does not hold the privilege.
pub proof fn law_revoke_removes(c: CatalogState, g: GrantView)
    ensures
        revoked(c, g).roles.dom().contains(grantee_role(c, g.target))
            ==> !revoked(c, g).roles[grantee_role(c, g.target)].privileges.contains(
            granted_privilege(g),
        ),
{
    let role = grantee_role(c, g.target);
    if c.roles.dom().contains(role) {
        lemma_without_privilege(c.roles[role].privileges, granted_privilege(g));
    }
}

/// Revoking a privilege that was just granted to a role, and that the role did not hold before,
/// gives the roles back as they were.
pub proof fn law_revoke_undoes_grant(c: CatalogState, g: GrantView)
    requires
        c.roles.dom().contains(grantee_role(c, g.target)),
        !c.roles[grantee_role(c, g.target)].privileges.contains(granted_privilege(g)),
    ensures
        revoked(granted(c, g), g).roles == c.roles,
{
    let role = grantee_role(c, g.target);
    let d = granted(c, g);
    lemma_without_privilege(c.roles[role].privileges, granted_privilege(g));
    assert(grantee_role(d, g.target) == role);
    assert(d.roles[role].privileges == c.roles[role].privileges.push(granted_privilege(g)));
    assert(revoked(d, g).roles =~= c.roles);
}

/// A user whose role holds a privilege on everything is never refused.
pub proof fn law_admin_never_refused(c: CatalogState, user: Seq<char>, action: Seq<char>)
    requires
        is_admin(c, user),
    ensures
        refusal(c, user, action) is None,
{
}

/// A user without a role is refused whatever the statement is.
pub proof fn law_no_role_refused(c: CatalogState, user: Seq<char>, action: Seq<char>)
    requires
        forall|name: Seq<char>| !has_role(c, user, name),
    ensures
        refusal(c, user, action) is Some,
{
}

/// A privilege on one table does not stand for all tables, and one for an action does not stand for another
/// action.
pub proof fn law_privilege_covers_no_more(p: PrivilegeView, action: Seq<char>, table: Option<Seq<char>>)
    ensures
        p.table is Some && p.table != table ==> !covers(p, action, table),
        p.kind != "ALL"@ && p.kind != action ==> !covers(p, action, table),
        p.table is None && p.kind == "ALL"@ ==> covers(p, action, table),
        p.table == table && p.kind == action ==> covers(p, action, table),
        p.table is Some ==> !is_admin_privilege(p),
        p.kind == "SELECT"@ ==> !is_admin_privilege(p),
{
    reveal_strlit("ALL");
    reveal_strlit("SELECT");
    reveal_strlit("*");
    assert("SELECT"@.len() != "ALL"@.len() && "SELECT"@.len() != "*"@.len());
}

/// A user who is no administrator reads only with the privilege to select, and runs any other statement
/// only with the privilege for it.
pub proof fn law_refused_without_the_privilege(c: CatalogState, user: Seq<char>, action: Seq<char>)
    requires
        !is_admin(c, user),
    ensures
        is_reading_word(action) ==> (refusal(c, user, action) is None <==> exists|name: Seq<char>| #[trigger]
            has_role(c, user, name) && role_covers(c.roles[name], "SELECT"@, None)),
        !is_reading_word(action) ==> (refusal(c, user, action) is None <==> exists|name: Seq<char>| #[trigger]
            has_role(c, user, name) && role_covers(c.roles[name], action, None)),
{
}

/// What is granted to one user or role changes no role of another user, and no other role.
pub proof fn law_grant_leaves_the_others(
    c: CatalogState,
    g: GrantView,
    user: Seq<char>,
    role: Seq<char>,
)
    requires
        user != g.target,
        role != grantee_role(c, g.target),
    ensures
        lookup(granted(c, g).user_roles, user) == lookup(c.user_roles, user),
        lookup(granted(c, g).roles, role) == lookup(c.roles, role),
        granted(c, g).users == c.users,
        lookup(revoked(c, g).roles, role) == lookup(c.roles, role),
        revoked(c, g).user_roles == c.user_roles,
{
}

/// A user who is created anew keeps the roles, and a role that is created anew keeps its privileges.
pub proof fn law_created_again_keeps_rights(c: CatalogState, user: UserView, role: Seq<char>)
    ensures
        lookup(with_user(c, user).users, user.name) == Some(user),
        c.user_roles.dom().contains(user.name) ==> with_user(c, user).user_roles == c.user_roles,
        !c.user_roles.dom().contains(user.name) ==> with_user(c, user).user_roles[user.name]
            == Seq::<Seq<char>>::empty(),
        c.roles.dom().contains(role) ==> with_role(c, role).roles == c.roles,
        !c.roles.dom().contains(role) ==> with_role(c, role).roles[role].privileges
            == Seq::<PrivilegeView>::empty(),
{
}

/// What a user is granted goes to a role of the user alone: a role that has the name of the user stays.
pub proof fn law_users_have_their_own_role(c: CatalogState, g: GrantView)
    requires
        c.users.dom().contains(g.target),
    ensures
        grantee_role(c, g.target) != g.target,
        lookup(granted(c, g).roles, g.target) == lookup(c.roles, g.target),
        granted(c, g).user_roles[g.target].contains(grantee_role(c, g.target)),
{
    reveal_strlit("__user_");
    let role = grantee_role(c, g.target);
    assert(role.len() == g.target.len() + 7);
    let names = if c.user_roles.dom().contains(g.target) {
        c.user_roles[g.target]
    } else {
        Seq::empty()
    };
    let after = with_name(names, role);
    if !names.contains(role) {
        assert(after[names.len() as int] == role);
    }
}

/// What a role is granted goes to the role of that name.
pub proof fn law_roles_are_granted_by_name(c: CatalogState, g: GrantView)
    requires
        !c.users.dom().contains(g.target),
    ensures
        granted(c, g).roles.dom().contains(g.target),
        granted(c, g).roles[g.target].privileges.contains(
            PrivilegeView { kind: g.privilege, table: Some(g.table) },
        ),
        granted(c, g).user_roles == c.user_roles,
{
    let before = with_role(c, g.target).roles[g.target].privileges;
    let p = granted_privilege(g);
    let after = with_privilege(before, p);
    if !before.contains(p) {
        assert(after[before.len() as int] == p);
    }
}

} // verus!
