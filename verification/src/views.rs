//! Views, plain and materialized.
//!
//! A materialized view stands on a table of its own, which holds the rows of its query.
use vstd::prelude::*;
use vstd::string::*;

use crate::catalog::{lookup, saved, Catalog, CatalogState};
use crate::catalog_types::{ViewDef, ViewView};
use crate::dup::{opt_view, Dup};
use crate::outcome::{answered, checked, Check, CheckView};
use crate::statement::{parsed_query, parsed_view, read_query, read_view, ViewHead, ViewHeadView};
use crate::text::{concat2, concat3, opt_text};

verus! {

// ---------------------------------------------------------------------------
// CREATE VIEW
// ---------------------------------------------------------------------------

/// The table that a materialized view stands on.
pub open spec fn backing_table(view: Seq<char>) -> Seq<char> {
    "__mv_"@ + view
}

/// What `CREATE VIEW` comes to.
pub open spec fn create_view_check(c: CatalogState, h: ViewHeadView) -> Result<
    CheckView,
    Seq<char>,
> {
    if c.views.dom().contains(h.name) && !h.or_replace {
        Err("View '"@ + h.name + "' already exists"@)
    } else {
        Ok(
            CheckView::Go(
                if h.materialized {
                    "CREATE MATERIALIZED VIEW \""@
                } else if h.or_replace {
                    "CREATE OR REPLACE VIEW \""@
                } else {
                    "CREATE VIEW \""@
                } + h.name + "\" AS "@ + h.query,
            ),
        )
    }
}

/// The statement by which the query engine learns of a view.
pub open spec fn view_registration(h: ViewHeadView) -> Seq<char> {
    "CREATE OR REPLACE VIEW \""@ + h.name + "\" AS "@ + if h.materialized {
        "SELECT * FROM \""@ + backing_table(h.name) + "\""@
    } else {
        h.query
    }
}

/// The entry of a view.
pub open spec fn created_view(h: ViewHeadView) -> ViewView {
    ViewView {
        name: h.name,
        sql: h.query,
        materialized: h.materialized,
        backing_table: if h.materialized {
            Some(backing_table(h.name))
        } else {
            None
        },
    }
}

/// The `CREATE VIEW` of a text.
pub fn parse_create_view(sql: &str) -> (r: Option<ViewHead>)
    ensures
        opt_view(r) == parsed_view(sql@),
{
    read_view(sql)
}

/// The table that a materialized view stands on.
pub fn backing_table_name(view: &str) -> (r: String)
    ensures
        r@ == backing_table(view@),
{
    concat2("__mv_", view)
}

/// The statement by which the query engine learns of a view.
pub fn register_view(h: &ViewHead) -> (r: String)
    ensures
        r@ == view_registration(h@),
{
    let head = concat3("CREATE OR REPLACE VIEW \"", &h.name, "\" AS ");
    if h.materialized {
        let backing = backing_table_name(&h.name);
        concat2(&head, &concat3("SELECT * FROM \"", &backing, "\""))
    } else {
        concat2(&head, &h.query)
    }
}

impl Catalog {
    /// What `CREATE VIEW` comes to.
    pub fn check_create_view(&self, h: &ViewHead) -> (r: Result<Check, String>)
        requires
            self.wf(),
        ensures
            checked(r) == create_view_check(self@, h@),
    {
        if self.views.contains_key(&h.name) && !h.or_replace {
            return Err(concat3("View '", &h.name, "' already exists"));
        }
        let word = if h.materialized {
            "CREATE MATERIALIZED VIEW \""
        } else if h.or_replace {
            "CREATE OR REPLACE VIEW \""
        } else {
            "CREATE VIEW \""
        };
        let head = concat3(word, &h.name, "\" AS ");
        Ok(Check::Go(concat2(&head, &h.query)))
    }

    /// Whether the table that a materialized view is to stand on is there from before, and has to go
    /// first.
    pub fn stale_backing_table(&self, h: &ViewHead) -> (r: bool)
        requires
            self.wf(),
        ensures
            r == (h.materialized && self@.tables.dom().contains(backing_table(h@.name))),
    {
        h.materialized && self.tables.contains_key(&backing_table_name(&h.name))
    }

    /// Enters a view.
    pub fn handle_create_view(&mut self, h: &ViewHead) -> (r: String)
        requires
            old(self).wf(),
        ensures
            final(self).wf(),
            r@ == if h.materialized {
                "Materialized"@
            } else {
                "View"@
            } + " view '"@ + h@.name + "' created."@,
            saved(old(self), final(self)),
            final(self)@ == (CatalogState {
                views: old(self)@.views.insert(h@.name, created_view(h@)),
                ..old(self)@
            }),
    {
        let backing: Option<String> = if h.materialized {
            Some(backing_table_name(&h.name))
        } else {
            None
        };
        let def = ViewDef {
            name: h.name.clone(),
            sql: h.query.clone(),
            materialized: h.materialized,
            backing_table: backing,
        };
        self.add_view(def);
        let word = if h.materialized {
            "Materialized"
        } else {
            "View"
        };
        let head = concat2(word, " view '");
        concat3(&head, &h.name, "' created.")
    }
}

// ---------------------------------------------------------------------------
// DROP VIEW
// ---------------------------------------------------------------------------

/// What `DROP VIEW` comes to.
pub open spec fn drop_view_check(c: CatalogState, name: Seq<char>, if_exists: bool) -> Result<
    CheckView,
    Seq<char>,
> {
    if c.views.dom().contains(name) {
        Ok(
            CheckView::Go(
                if if_exists {
                    "DROP VIEW IF EXISTS \""@
                } else {
                    "DROP VIEW \""@
                } + name + "\""@,
            ),
        )
    } else if if_exists {
        Ok(CheckView::Done("View '"@ + name + "' does not exist, skipping."@))
    } else {
        Err("View '"@ + name + "' does not exist"@)
    }
}

/// The table that goes with a view.
pub open spec fn table_of_view(v: Option<ViewView>) -> Option<Seq<char>> {
    match v {
        Some(view) => if view.materialized {
            view.backing_table
        } else {
            None
        },
        None => None,
    }
}

impl Catalog {
    /// What `DROP VIEW` comes to.
    pub fn check_drop_view(&self, name: &str, if_exists: bool) -> (r: Result<Check, String>)
        requires
            self.wf(),
        ensures
            checked(r) == drop_view_check(self@, name@, if_exists),
    {
        if self.views.contains_key(name) {
            let head = if if_exists {
                "DROP VIEW IF EXISTS \""
            } else {
                "DROP VIEW \""
            };
            return Ok(Check::Go(concat3(head, name, "\"")));
        }
        if if_exists {
            Ok(Check::Done(concat3("View '", name, "' does not exist, skipping.")))
        } else {
            Err(concat3("View '", name, "' does not exist"))
        }
    }

    /// Removes a view. The table that it stands on, if it has one, is handed back with the answer: it
    /// is to be dropped too.
    pub fn handle_drop_view(&mut self, name: &str) -> (r: (String, Option<String>))
        requires
            old(self).wf(),
        ensures
            final(self).wf(),
            r.0@ == "View '"@ + name@ + "' dropped."@,
            opt_text(r.1) == table_of_view(lookup(old(self)@.views, name@)),
            saved(old(self), final(self)),
            final(self)@ == (CatalogState {
                views: old(self)@.views.remove(name@),
                ..old(self)@
            }),
    {
        let message = concat3("View '", name, "' dropped.");
        match self.remove_view(name) {
            Some(view) => if view.materialized {
                (message, view.backing_table)
            } else {
                (message, None)
            },
            None => (message, None),
        }
    }
}

// ---------------------------------------------------------------------------
// REFRESH MATERIALIZED VIEW
// ---------------------------------------------------------------------------

/// What is needed to refresh a materialized view.
pub struct Refresh {
    /// The text for the write-ahead log.
    pub log: String,
    /// The table that is dropped and made anew.
    pub backing: String,
    /// The statement that is parsed for the query of the view.
    pub source: String,
    /// The statement by which the query engine learns of the view.
    pub register: String,
    /// The answer.
    pub message: String,
}

/// The statement that is parsed for the query of a view.
pub open spec fn refresh_source(sql: Seq<char>) -> Seq<char> {
    "SELECT * FROM ("@ + sql + ") t"@
}

/// Whether a refresh is the one of the view with this backing table.
pub open spec fn refreshes(r: Refresh, name: Seq<char>, view: ViewView, backing: Seq<char>) -> bool {
    &&& r.log@ == "REFRESH MATERIALIZED VIEW \""@ + name + "\""@
    &&& r.backing@ == backing
    &&& r.source@ == refresh_source(view.sql)
    &&& r.register@ == "CREATE OR REPLACE VIEW \""@ + name + "\" AS SELECT * FROM \""@ + backing
        + "\""@
    &&& r.message@ == "Materialized view '"@ + name + "' refreshed."@
}

impl Catalog {
    /// What is needed to refresh a materialized view. A view that is not there or not materialized is
    /// refused, and so is one whose entry names no table.
    pub fn plan_refresh(&self, name: &str) -> (r: Result<Refresh, String>)
        requires
            self.wf(),
        ensures
            match lookup(self@.views, name@) {
                None => r matches Err(e) && e@ == "View '"@ + name@ + "' does not exist"@,
                Some(view) => if !view.materialized {
                    r matches Err(e) && e@ == "View '"@ + name@ + "' is not materialized"@
                } else {
                    match view.backing_table {
                        None => r matches Err(e) && e@
                            == "Materialized view is missing backing table metadata"@,
                        Some(backing) => r matches Ok(p) && refreshes(p, name@, view, backing),
                    }
                },
            },
    {
        match self.views.lookup(name) {
            None => Err(concat3("View '", name, "' does not exist")),
            Some(view) => {
                if !view.materialized {
                    return Err(concat3("View '", name, "' is not materialized"));
                }
                match &view.backing_table {
                    None => Err("Materialized view is missing backing table metadata".to_owned()),
                    Some(backing) => {
                        let head = concat3(
                            "CREATE OR REPLACE VIEW \"",
                            name,
                            "\" AS SELECT * FROM \"",
                        );
                        Ok(
                            Refresh {
                                log: concat3("REFRESH MATERIALIZED VIEW \"", name, "\""),
                                backing: backing.clone(),
                                source: concat3("SELECT * FROM (", &view.sql, ") t"),
                                register: concat3(&head, backing, "\""),
                                message: concat3("Materialized view '", name, "' refreshed."),
                            },
                        )
                    },
                }
            },
        }
    }
}

/// The query of a stored view, given what the parser made of its source.
pub open spec fn stored_query(parsed: Result<Option<Seq<char>>, Seq<char>>) -> Result<
    Seq<char>,
    Seq<char>,
> {
    match parsed {
        Err(e) => Err(e),
        Ok(None) => Err("Stored materialized view SQL is invalid"@),
        Ok(Some(q)) => Ok(q),
    }
}

/// The query of a stored view, given what the parser made of its source.
pub fn stored_query_with(parsed: Result<Option<String>, String>) -> (r: Result<String, String>)
    ensures
        answered(r) == stored_query(
            match parsed {
                Ok(q) => Ok(opt_text(q)),
                Err(e) => Err(e@),
            },
        ),
{
    match parsed {
        Err(e) => Err(e),
        Ok(None) => Err("Stored materialized view SQL is invalid".to_owned()),
        Ok(Some(q)) => Ok(q),
    }
}

/// The query by which the table of a materialized view is made anew.
pub fn refresh_query(plan: &Refresh) -> (r: Result<String, String>)
    ensures
        answered(r) == stored_query(parsed_query(plan.source@)),
{
    stored_query_with(read_query(&plan.source))
}

// ---------------------------------------------------------------------------
// Laws
// ---------------------------------------------------------------------------

/// A materialized view that was just created can be refreshed, and what is made anew is the table
/// that the view was created on.
pub proof fn law_created_view_names_its_table(c: CatalogState, h: ViewHeadView)
    requires
        h.materialized,
    ensures
        table_of_view(lookup(c.views.insert(h.name, created_view(h)), h.name)) == Some(
            backing_table(h.name),
        ),
{
}

/// `CREATE VIEW` goes ahead exactly where there is no view of the name or it may be replaced, and `DROP VIEW`
/// exactly where there is one. Else they are refused, but for a `DROP VIEW` that allows for it.
pub proof fn law_create_or_drop(c: CatalogState, h: ViewHeadView, if_exists: bool)
    ensures
        create_view_check(c, h) matches Ok(CheckView::Go(_)) <==> h.or_replace
            || !c.views.dom().contains(h.name),
        drop_view_check(c, h.name, if_exists) matches Ok(CheckView::Go(_)) <==> c.views.dom().contains(h.name),
        create_view_check(c, h) is Err <==> c.views.dom().contains(h.name) && !h.or_replace,
        drop_view_check(c, h.name, if_exists) is Err <==> !c.views.dom().contains(h.name) && !if_exists,
{
}

/// A view that is no materialized one is registered with its own query, and a materialized one with the
/// rows of its table. Different views stand on different tables.
pub proof fn law_views_read_their_source(h: ViewHeadView, other: Seq<char>)
    ensures
        !h.materialized ==> view_registration(h) == "CREATE OR REPLACE VIEW \""@ + h.name
            + "\" AS "@ + h.query,
        h.materialized ==> view_registration(h) == "CREATE OR REPLACE VIEW \""@ + h.name
            + "\" AS "@ + crate::meaning::select(
            "*"@,
            crate::meaning::table(crate::meaning::quoted_name(backing_table(h.name))),
        ).text,
        h.name != other ==> backing_table(h.name) != backing_table(other),
        !h.materialized ==> table_of_view(Some(created_view(h))) is None,
        created_view(h).sql == h.query,
{
    reveal_strlit("SELECT * FROM \"");
    reveal_strlit("SELECT ");
    reveal_strlit("*");
    reveal_strlit(" FROM ");
    reveal_strlit("\"");
    assert("SELECT * FROM \""@ + backing_table(h.name) + "\""@ =~= crate::meaning::select(
        "*"@,
        crate::meaning::table(crate::meaning::quoted_name(backing_table(h.name))),
    ).text);
    if backing_table(h.name) == backing_table(other) {
        let k = "__mv_"@.len() as int;
        assert(backing_table(h.name).subrange(k, k + h.name.len()) =~= h.name);
        assert(backing_table(other).subrange(k, k + other.len()) =~= other);
        assert(backing_table(h.name).len() == k + h.name.len());
        assert(backing_table(other).len() == k + other.len());
    }
}

/// A refresh fills the table of the view with the rows of its query, and the view then reads that table.
pub proof fn law_refresh_fills_the_backing_table(
    r: Refresh,
    name: Seq<char>,
    view: ViewView,
    backing: Seq<char>,
)
    requires
        refreshes(r, name, view, backing),
    ensures
        r.backing@ == backing,
        r.source@ == "SELECT * FROM ("@ + view.sql + ") t"@,
        r.register@ == "CREATE OR REPLACE VIEW \""@ + name + "\" AS "@ + crate::meaning::select(
            "*"@,
            crate::meaning::table(crate::meaning::quoted_name(backing)),
        ).text,
{
    reveal_strlit("\" AS SELECT * FROM \"");
    reveal_strlit("\" AS ");
    reveal_strlit("SELECT ");
    reveal_strlit("*");
    reveal_strlit(" FROM ");
    reveal_strlit("\"");
    assert("CREATE OR REPLACE VIEW \""@ + name + "\" AS SELECT * FROM \""@ + backing + "\""@
        =~= "CREATE OR REPLACE VIEW \""@ + name + "\" AS "@ + crate::meaning::select(
        "*"@,
        crate::meaning::table(crate::meaning::quoted_name(backing)),
    ).text);
}

} // verus!
