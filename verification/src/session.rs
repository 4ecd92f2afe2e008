//! What a session holds beside the catalog: channels, procedures, replicas, prepared statements
//! and the plans of queries that were run before.
use vstd::prelude::*;
use vstd::string::*;

use crate::catalog::{lookup, saved, Catalog, CatalogState};
use crate::commands::{
    bare, called_procedure, dropped_trigger, listen_channel, notify_parts, parse_call,
    parse_create_procedure, parse_create_trigger, parse_drop_trigger, parse_listen, parse_notify,
    parse_replica, procedure_parts, replica_url, trigger_parts,
};
use crate::dup::Dup;
use crate::functions::{
    created_function, dropped_function, parse_create_function, parse_drop_function, statement_text,
};
use crate::namemap::NameMap;
use crate::numbers::{decimal, print_usize};
use crate::outcome::answered;
use crate::scan::{
    law_text_without_placeholders_stays, split_sql_statements, statements, substitute_parameters,
    substituted,
};
use crate::sql_helpers::{first_word, is_read_only_sql, is_reading_word, leading_word, reading_word};
use crate::text::{
    clone_strings, concat3, contains, contains_seq, contains_text, same, texts, upper_text, utf8,
    words,
};

verus! {

/// Whether a statement only reads, by its first word.
pub open spec fn read_only(sql: Seq<char>) -> bool {
    is_reading_word(upper_text(first_word(sql)))
}

// ---------------------------------------------------------------------------
// Channels
// ---------------------------------------------------------------------------

/// The messages of a channel, oldest first.
pub struct Channel {
    pub messages: Vec<String>,
}

impl View for Channel {
    type V = Seq<Seq<char>>;

    open spec fn view(&self) -> Seq<Seq<char>> {
        texts(self.messages@)
    }
}

impl Dup for Channel {
    open spec fn wf(&self) -> bool {
        true
    }

    fn dup(&self) -> (r: Self) {
        Channel { messages: clone_strings(&self.messages) }
    }
}

/// The channels that were listened to or notified.
pub struct Notifications {
    pub queues: NameMap<Channel>,
}

/// The messages of a channel; none where nothing was ever said of it.
pub open spec fn queue_of(m: Map<Seq<char>, Seq<Seq<char>>>, channel: Seq<char>) -> Seq<Seq<char>> {
    match lookup(m, channel) {
        Some(q) => q,
        None => Seq::empty(),
    }
}

/// The answer to `NOTIFY`.
pub open spec fn notify_text(channel: Seq<char>, payload: Seq<char>) -> Seq<char> {
    "NOTIFY sent on '"@ + channel + "' (payload "@ + decimal(utf8(payload).len()) + " byte(s))."@
}

impl Notifications {
    /// No channels.
    pub fn new() -> (r: Notifications)
        ensures
            r.queues.deep_wf(),
            r.queues.deep() == Map::<Seq<char>, Seq<Seq<char>>>::empty(),
    {
        let queues: NameMap<Channel> = NameMap::new();
        proof {
            queues.lemma_empty();
        }
        Notifications { queues }
    }

    /// `LISTEN channel`: opens the channel. The messages of a channel that is open stay.
    pub fn handle_listen(&mut self, sql: &str) -> (r: Result<String, String>)
        requires
            old(self).queues.deep_wf(),
        ensures
            final(self).queues.deep_wf(),
            match listen_channel(sql@) {
                Err(e) => answered(r) == Err::<Seq<char>, Seq<char>>(e) && *final(self) == *old(
                    self,
                ),
                Ok(c) => {
                    &&& answered(r) == Ok::<Seq<char>, Seq<char>>(
                        "LISTEN '"@ + c + "' registered."@,
                    )
                    &&& final(self).queues.deep() == old(self).queues.deep().insert(
                        c,
                        queue_of(old(self).queues.deep(), c),
                    )
                },
            },
    {
        let c = match parse_listen(sql) {
            Err(e) => {
                return Err(e);
            },
            Ok(c) => c,
        };
        let queue = match self.queues.lookup(&c) {
            Some(q) => q.dup(),
            None => Channel { messages: Vec::new() },
        };
        assert(queue@ =~= queue_of(self.queues.deep(), c@));
        let message = concat3("LISTEN '", &c, "' registered.");
        self.queues.put(c, queue);
        Ok(message)
    }

    /// `NOTIFY channel, 'payload'`: puts the payload behind the messages of the channel.
    pub fn handle_notify(&mut self, sql: &str) -> (r: Result<String, String>)
        requires
            old(self).queues.deep_wf(),
        ensures
            final(self).queues.deep_wf(),
            match notify_parts(sql@) {
                Err(e) => answered(r) == Err::<Seq<char>, Seq<char>>(e) && *final(self) == *old(
                    self,
                ),
                Ok(p) => {
                    &&& answered(r) == Ok::<Seq<char>, Seq<char>>(notify_text(p.0, p.1))
                    &&& final(self).queues.deep() == old(self).queues.deep().insert(
                        p.0,
                        queue_of(old(self).queues.deep(), p.0).push(p.1),
                    )
                },
            },
    {
        let (c, payload) = match parse_notify(sql) {
            Err(e) => {
                return Err(e);
            },
            Ok(p) => p,
        };
        let mut queue = match self.queues.lookup(&c) {
            Some(q) => q.dup(),
            None => Channel { messages: Vec::new() },
        };
        let ghost before = queue.messages@;
        assert(texts(before) =~= queue_of(self.queues.deep(), c@));
        let size: usize = payload.as_str().as_bytes().len();
        let head = concat3("NOTIFY sent on '", &c, "' (payload ");
        let message = concat3(&head, &print_usize(size), " byte(s)).");
        let ghost said = payload@;
        queue.messages.push(payload);
        assert(texts(queue.messages@) =~= texts(before).push(said));
        self.queues.put(c, queue);
        Ok(message)
    }
}

/// The messages of a channel come in the order in which they were sent, and one that was sent stays.
pub proof fn law_messages_stay_in_order(
    m: Map<Seq<char>, Seq<Seq<char>>>,
    channel: Seq<char>,
    first: Seq<char>,
    second: Seq<char>,
)
    ensures
        ({
            let one = m.insert(channel, queue_of(m, channel).push(first));
            let two = one.insert(channel, queue_of(one, channel).push(second));
            let q = queue_of(two, channel);
            &&& q.len() == queue_of(m, channel).len() + 2
            &&& q[q.len() - 2] == first
            &&& q[q.len() - 1] == second
        }),
{
}

// ---------------------------------------------------------------------------
// Procedures
// ---------------------------------------------------------------------------

/// The procedures of the session, by name.
pub struct Procedures {
    pub bodies: NameMap<String>,
}

/// A procedure that is to run: its statements in order.
pub struct Call {
    pub name: String,
    pub statements: Vec<String>,
}

/// The name and the statements of the procedure that a `CALL` statement calls.
pub open spec fn call_plan(m: Map<Seq<char>, Seq<char>>, sql: Seq<char>) -> Result<
    (Seq<char>, Seq<Seq<char>>),
    Seq<char>,
> {
    match called_procedure(sql) {
        Err(e) => Err(e),
        Ok(name) => match lookup(m, name) {
            None => Err("Procedure '"@ + name + "' does not exist"@),
            Some(body) => Ok((name, statements(body))),
        },
    }
}

impl Procedures {
    /// No procedures.
    pub fn new() -> (r: Procedures)
        ensures
            r.bodies.deep_wf(),
            r.bodies.deep() == Map::<Seq<char>, Seq<char>>::empty(),
    {
        let bodies: NameMap<String> = NameMap::new();
        proof {
            bodies.lemma_empty();
        }
        Procedures { bodies }
    }

    /// `CREATE PROCEDURE name() … $$ … $$`, in the place of a procedure of the same name; an outer
    /// `None` where the statement cannot be cut behind its words.
    pub fn handle_create_procedure(&mut self, sql: &str) -> (r: Option<Result<String, String>>)
        requires
            old(self).bodies.deep_wf(),
        ensures
            final(self).bodies.deep_wf(),
            match procedure_parts(bare(sql@), upper_text(bare(sql@))) {
                None => r is None && *final(self) == *old(self),
                Some(Err(e)) => {
                    &&& r matches Some(x) && answered(x) == Err::<Seq<char>, Seq<char>>(e)
                    &&& *final(self) == *old(self)
                },
                Some(Ok(p)) => {
                    &&& r matches Some(x) && answered(x) == Ok::<Seq<char>, Seq<char>>(
                        "Procedure '"@ + p.0 + "' created."@,
                    )
                    &&& final(self).bodies.deep() == old(self).bodies.deep().insert(p.0, p.1)
                },
            },
    {
        match parse_create_procedure(sql) {
            None => None,
            Some(Err(e)) => Some(Err(e)),
            Some(Ok((name, body))) => {
                let message = concat3("Procedure '", &name, "' created.");
                self.bodies.put(name, body);
                Some(Ok(message))
            },
        }
    }

    /// `CALL name()`: the statements that are to run.
    pub fn handle_call_procedure(&self, sql: &str) -> (r: Result<Call, String>)
        requires
            self.bodies.deep_wf(),
        ensures
            match r {
                Ok(c) => call_plan(self.bodies.deep(), sql@) == Ok::<
                    (Seq<char>, Seq<Seq<char>>),
                    Seq<char>,
                >((c.name@, texts(c.statements@))),
                Err(e) => call_plan(self.bodies.deep(), sql@) == Err::<
                    (Seq<char>, Seq<Seq<char>>),
                    Seq<char>,
                >(e@),
            },
    {
        let name = match parse_call(sql) {
            Err(e) => {
                return Err(e);
            },
            Ok(n) => n,
        };
        match self.bodies.lookup(&name) {
            None => Err(concat3("Procedure '", &name, "' does not exist")),
            Some(body) => {
                let list = split_sql_statements(body);
                Ok(Call { name, statements: list })
            },
        }
    }
}

/// The answer to `CALL`, once its statements have run.
pub fn call_message(name: &str) -> (r: String)
    ensures
        r@ == "CALL '"@ + name@ + "' completed."@,
{
    concat3("CALL '", name, "' completed.")
}

/// The answer to `DO`, once its statements have run.
pub fn do_message() -> (r: String)
    ensures
        r@ == "DO block completed."@,
{
    "DO block completed.".to_owned()
}

// ---------------------------------------------------------------------------
// Replicas
// ---------------------------------------------------------------------------

/// The addresses of the replicas, each once.
pub struct Replicas {
    pub urls: Vec<String>,
}

/// The texts without one of them.
pub open spec fn without_text(s: Seq<Seq<char>>, url: Seq<char>, n: nat) -> Seq<Seq<char>>
    decreases n,
{
    if n == 0 || n > s.len() {
        Seq::empty()
    } else if s[n - 1] == url {
        without_text(s, url, (n - 1) as nat)
    } else {
        without_text(s, url, (n - 1) as nat).push(s[n - 1])
    }
}

impl Replicas {
    /// The addresses in the order in which they were added.
    pub open spec fn list(&self) -> Seq<Seq<char>> {
        texts(self.urls@)
    }

    /// No address stands twice.
    pub open spec fn wf(&self) -> bool {
        self.list().no_duplicates()
    }

    /// No replicas.
    pub fn new() -> (r: Replicas)
        ensures
            r.wf(),
            r.list().len() == 0,
    {
        Replicas { urls: Vec::new() }
    }

    /// `ADD REPLICA 'url'`; an outer `None` where the statement cannot be cut behind its words.
    pub fn handle_add_replica(&mut self, sql: &str) -> (r: Option<Result<String, String>>)
        requires
            old(self).wf(),
        ensures
            final(self).wf(),
            match replica_url(sql@, "ADD REPLICA "@) {
                None => r is None && *final(self) == *old(self),
                Some(url) => {
                    &&& r matches Some(x) && answered(x) == if url.len() == 0 {
                        Err::<Seq<char>, Seq<char>>("ADD REPLICA requires a URL"@)
                    } else {
                        Ok::<Seq<char>, Seq<char>>("Replica '"@ + url + "' added."@)
                    }
                    &&& final(self).list() == if url.len() == 0 || old(self).list().contains(url) {
                        old(self).list()
                    } else {
                        old(self).list().push(url)
                    }
                },
            },
    {
        let url = match parse_replica(sql, "ADD REPLICA ") {
            None => {
                return None;
            },
            Some(u) => u,
        };
        if url.as_str().is_empty() {
            return Some(Err("ADD REPLICA requires a URL".to_owned()));
        }
        let message = concat3("Replica '", &url, "' added.");
        if !contains_text(&self.urls, &url) {
            let ghost before = self.urls@;
            let ghost u = url@;
            self.urls.push(url);
            assert(texts(self.urls@) =~= texts(before).push(u));
        }
        Some(Ok(message))
    }

    /// `REMOVE REPLICA 'url'`; an outer `None` where the statement cannot be cut behind its words.
    pub fn handle_remove_replica(&mut self, sql: &str) -> (r: Option<Result<String, String>>)
        requires
            old(self).wf(),
        ensures
            final(self).wf(),
            match replica_url(sql@, "REMOVE REPLICA "@) {
                None => r is None && *final(self) == *old(self),
                Some(url) => {
                    &&& r matches Some(x) && answered(x) == if url.len() == 0 {
                        Err::<Seq<char>, Seq<char>>("REMOVE REPLICA requires a URL"@)
                    } else {
                        Ok::<Seq<char>, Seq<char>>("Replica '"@ + url + "' removed."@)
                    }
                    &&& final(self).list() == if url.len() == 0 {
                        old(self).list()
                    } else {
                        without_text(old(self).list(), url, old(self).list().len())
                    }
                },
            },
    {
        let url = match parse_replica(sql, "REMOVE REPLICA ") {
            None => {
                return None;
            },
            Some(u) => u,
        };
        if url.as_str().is_empty() {
            return Some(Err("REMOVE REPLICA requires a URL".to_owned()));
        }
        let ghost all = self.list();
        let mut kept: Vec<String> = Vec::new();
        let mut i: usize = 0;
        assert(texts(kept@) =~= Seq::<Seq<char>>::empty());
        while i < self.urls.len()
            invariant
                i <= self.urls@.len(),
                all == texts(self.urls@),
                all.len() == self.urls@.len(),
                texts(kept@) == without_text(all, url@, i as nat),
            decreases self.urls@.len() - i,
        {
            assert(all[i as int] == self.urls@[i as int]@);
            if !same(&self.urls[i], &url) {
                let ghost done = kept@;
                kept.push(self.urls[i].clone());
                assert(texts(kept@) =~= texts(done).push(all[i as int]));
            }
            i += 1;
        }
        proof {
            lemma_without_text(all, url@, all.len());
        }
        self.urls = kept;
        Some(Ok(concat3("Replica '", &url, "' removed.")))
    }

    /// The addresses of the replicas.
    pub fn replica_urls(&self) -> (r: Vec<String>)
        ensures
            texts(r@) == self.list(),
    {
        clone_strings(&self.urls)
    }
}

proof fn lemma_without_text(s: Seq<Seq<char>>, url: Seq<char>, n: nat)
    requires
        n <= s.len(),
        s.no_duplicates(),
    ensures
        without_text(s, url, n).no_duplicates(),
        forall|x: Seq<char>| #[trigger] without_text(s, url, n).contains(x) <==> (x != url && s.subrange(0, n as int).contains(x)),
    decreases n,
{
    if n > 0 {
        let rest = without_text(s, url, (n - 1) as nat);
        let all = without_text(s, url, n);
        lemma_without_text(s, url, (n - 1) as nat);
        let before = s.subrange(0, n - 1);
        let now = s.subrange(0, n as int);
        assert(now =~= before.push(s[n - 1]));
        assert forall|x: Seq<char>| #[trigger] all.contains(x) <==> (x != url && now.contains(x)) by {
            if rest.contains(x) {
                let j = choose|j: int| 0 <= j < rest.len() && rest[j] == x;
                assert(all[j] == x);
                let k = choose|k: int| 0 <= k < before.len() && before[k] == x;
                assert(now[k] == x);
            }
            if x != url && now.contains(x) {
                let k = choose|k: int| 0 <= k < now.len() && now[k] == x;
                if k < n - 1 {
                    assert(before[k] == x);
                    assert(rest.contains(x));
                } else {
                    assert(all[all.len() - 1] == x);
                }
            }
            if all.contains(x) {
                let j = choose|j: int| 0 <= j < all.len() && all[j] == x;
                if j < rest.len() {
                    assert(rest[j] == x);
                    assert(rest.contains(x));
                } else {
                    assert(now[n - 1] == x);
                }
            }
        }
        if s[n - 1] != url {
            assert(!rest.contains(s[n - 1])) by {
                if rest.contains(s[n - 1]) {
                    let k = choose|k: int| 0 <= k < before.len() && before[k] == s[n - 1];
                    assert(s[k] == s[n - 1]);
                }
            }
        }
    }
}

/// An address that was removed is not among the replicas, and every other one is as before.
pub proof fn law_removed_replica_is_gone(s: Seq<Seq<char>>, url: Seq<char>, other: Seq<char>)
    requires
        s.no_duplicates(),
    ensures
        !without_text(s, url, s.len()).contains(url),
        other != url ==> (without_text(s, url, s.len()).contains(other) <==> s.contains(other)),
{
    lemma_without_text(s, url, s.len());
    assert(s.subrange(0, s.len() as int) =~= s);
}

// ---------------------------------------------------------------------------
// Triggers and functions
// ---------------------------------------------------------------------------

impl Catalog {
    /// `CREATE TRIGGER`, in the place of a trigger of the same name; an outer `None` where the
    /// statement cannot be cut.
    pub fn handle_create_trigger(&mut self, sql: &str) -> (r: Option<Result<String, String>>)
        requires
            old(self).wf(),
        ensures
            final(self).wf(),
            match trigger_parts(bare(sql@), upper_text(bare(sql@))) {
                None => r is None && *final(self) == *old(self),
                Some(Err(e)) => {
                    &&& r matches Some(x) && answered(x) == Err::<Seq<char>, Seq<char>>(e)
                    &&& *final(self) == *old(self)
                },
                Some(Ok(def)) => {
                    &&& r matches Some(x) && answered(x) == Ok::<Seq<char>, Seq<char>>(
                        "Trigger '"@ + def.name + "' created."@,
                    )
                    &&& saved(old(self), final(self))
                    &&& final(self)@ == (CatalogState {
                        triggers: old(self)@.triggers.insert(def.name, def),
                        ..old(self)@
                    })
                },
            },
    {
        match parse_create_trigger(sql) {
            None => None,
            Some(Err(e)) => Some(Err(e)),
            Some(Ok(def)) => {
                let message = concat3("Trigger '", &def.name, "' created.");
                self.triggers.put(def.name.clone(), def);
                self.save();
                Some(Ok(message))
            },
        }
    }

    /// `DROP TRIGGER`, whether or not there is such a trigger; an outer `None` where the statement
    /// cannot be cut behind its words.
    pub fn handle_drop_trigger(&mut self, sql: &str) -> (r: Option<Result<String, String>>)
        requires
            old(self).wf(),
        ensures
            final(self).wf(),
            match dropped_trigger(bare(sql@), upper_text(bare(sql@))) {
                None => r is None && *final(self) == *old(self),
                Some(Err(e)) => {
                    &&& r matches Some(x) && answered(x) == Err::<Seq<char>, Seq<char>>(e)
                    &&& *final(self) == *old(self)
                },
                Some(Ok(name)) => {
                    &&& r matches Some(x) && answered(x) == Ok::<Seq<char>, Seq<char>>(
                        "Trigger '"@ + name + "' dropped."@,
                    )
                    &&& saved(old(self), final(self))
                    &&& final(self)@ == (CatalogState {
                        triggers: old(self)@.triggers.remove(name),
                        ..old(self)@
                    })
                },
            },
    {
        match parse_drop_trigger(sql) {
            None => None,
            Some(Err(e)) => Some(Err(e)),
            Some(Ok(name)) => {
                self.triggers.take(&name);
                self.save();
                Some(Ok(concat3("Trigger '", &name, "' dropped.")))
            },
        }
    }

    /// `CREATE FUNCTION`, in the place of a function of the same name; an outer `None` where the
    /// statement cannot be cut.
    pub fn handle_create_function(&mut self, sql: &str) -> (r: Option<Result<String, String>>)
        requires
            old(self).wf(),
        ensures
            final(self).wf(),
            match created_function(statement_text(sql@), upper_text(statement_text(sql@))) {
                None => r is None && *final(self) == *old(self),
                Some(Err(e)) => {
                    &&& r matches Some(x) && answered(x) == Err::<Seq<char>, Seq<char>>(e)
                    &&& *final(self) == *old(self)
                },
                Some(Ok(def)) => {
                    &&& r matches Some(x) && answered(x) == Ok::<Seq<char>, Seq<char>>(
                        "Function '"@ + def.name + "' created."@,
                    )
                    &&& saved(old(self), final(self))
                    &&& final(self)@ == (CatalogState {
                        udfs: old(self)@.udfs.insert(def.name, def),
                        ..old(self)@
                    })
                },
            },
    {
        match parse_create_function(sql) {
            None => None,
            Some(Err(e)) => Some(Err(e)),
            Some(Ok(def)) => {
                let message = concat3("Function '", &def.name, "' created.");
                self.add_udf(def);
                Some(Ok(message))
            },
        }
    }

    /// `DROP FUNCTION [IF EXISTS] name`.
    pub fn handle_drop_function(&mut self, sql: &str) -> (r: Result<String, String>)
        requires
            old(self).wf(),
        ensures
            final(self).wf(),
            match dropped_function(sql@) {
                Err(e) => answered(r) == Err::<Seq<char>, Seq<char>>(e) && *final(self) == *old(
                    self,
                ),
                Ok((if_exists, name)) => if old(self)@.udfs.dom().contains(name) {
                    &&& answered(r) == Ok::<Seq<char>, Seq<char>>(
                        "Function '"@ + name + "' dropped."@,
                    )
                    &&& saved(old(self), final(self))
                    &&& final(self)@ == (CatalogState {
                        udfs: old(self)@.udfs.remove(name),
                        ..old(self)@
                    })
                } else {
                    &&& *final(self) == *old(self)
                    &&& answered(r) == if if_exists {
                        Ok::<Seq<char>, Seq<char>>(
                            "Function '"@ + name + "' does not exist, skipping."@,
                        )
                    } else {
                        Err::<Seq<char>, Seq<char>>("Function '"@ + name + "' does not exist"@)
                    }
                },
            },
    {
        let (if_exists, name) = match parse_drop_function(sql) {
            Err(e) => {
                return Err(e);
            },
            Ok(p) => p,
        };
        if !self.udfs.contains_key(&name) {
            return if if_exists {
                Ok(concat3("Function '", &name, "' does not exist, skipping."))
            } else {
                Err(concat3("Function '", &name, "' does not exist"))
            };
        }
        self.remove_udf(&name);
        Ok(concat3("Function '", &name, "' dropped."))
    }
}

// ---------------------------------------------------------------------------
// Plans
// ---------------------------------------------------------------------------

/// The queries whose plans are kept, and how often a kept plan was used.
pub struct PlanCache {
    pub queries: Vec<String>,
    pub hits: u64,
}

/// The queries that do not mention a table.
pub open spec fn unrelated(s: Seq<Seq<char>>, table: Seq<char>, n: nat) -> Seq<Seq<char>>
    decreases n,
{
    if n == 0 || n > s.len() {
        Seq::empty()
    } else if contains_seq(s[n - 1], table) {
        unrelated(s, table, (n - 1) as nat)
    } else {
        unrelated(s, table, (n - 1) as nat).push(s[n - 1])
    }
}

/// The queries with one more, if its plan can be kept.
pub open spec fn with_plan(s: Seq<Seq<char>>, sql: Seq<char>) -> Seq<Seq<char>> {
    if !read_only(sql) || s.contains(sql) {
        s
    } else {
        s.push(sql)
    }
}

impl PlanCache {
    /// The queries whose plans are kept.
    pub open spec fn list(&self) -> Seq<Seq<char>> {
        texts(self.queries@)
    }

    /// No query stands twice, and each only reads.
    pub open spec fn wf(&self) -> bool {
        &&& self.list().no_duplicates()
        &&& forall|i: int| 0 <= i < self.list().len() ==> read_only(#[trigger] self.list()[i])
    }

    /// No plans.
    pub fn new() -> (r: PlanCache)
        ensures
            r.wf(),
            r.list().len() == 0,
            r.hits == 0,
    {
        PlanCache { queries: Vec::new(), hits: 0 }
    }

    /// Whether the query is tried with a kept plan first.
    pub fn has_plan(&self, sql: &str) -> (r: bool)
        requires
            self.wf(),
        ensures
            r == self.list().contains(sql@),
            r ==> read_only(sql@),
    {
        let r = contains_text(&self.queries, sql);
        proof {
            if r {
                let i = choose|i: int| 0 <= i < self.list().len() && self.list()[i] == sql@;
                assert(read_only(self.list()[i]));
            }
        }
        r
    }

    /// Notes that a kept plan was used.
    pub fn plan_used(&mut self)
        ensures
            final(self).queries == old(self).queries,
            final(self).hits == if old(self).hits == u64::MAX {
                u64::MAX
            } else {
                (old(self).hits + 1) as u64
            },
    {
        if self.hits < u64::MAX {
            self.hits = self.hits + 1;
        }
    }

    /// Keeps the plan of a query that ran. A statement that does more than read is not kept.
    pub fn keep_plan(&mut self, sql: &str)
        requires
            old(self).wf(),
        ensures
            final(self).wf(),
            final(self).hits == old(self).hits,
            final(self).list() == with_plan(old(self).list(), sql@),
    {
        if is_read_only_sql(sql) && !contains_text(&self.queries, sql) {
            let ghost before = self.queries@;
            self.queries.push(sql.to_owned());
            assert(texts(self.queries@) =~= texts(before).push(sql@));
        }
    }

    /// Drops the plan of a query that did not run with it.
    pub fn drop_plan(&mut self, sql: &str)
        requires
            old(self).wf(),
        ensures
            final(self).wf(),
            final(self).hits == old(self).hits,
            final(self).list() == without_text(old(self).list(), sql@, old(self).list().len()),
    {
        let ghost all = self.list();
        let mut kept: Vec<String> = Vec::new();
        let mut i: usize = 0;
        assert(texts(kept@) =~= Seq::<Seq<char>>::empty());
        while i < self.queries.len()
            invariant
                i <= self.queries@.len(),
                all == texts(self.queries@),
                all.len() == self.queries@.len(),
                texts(kept@) == without_text(all, sql@, i as nat),
            decreases self.queries@.len() - i,
        {
            assert(all[i as int] == self.queries@[i as int]@);
            if !same(&self.queries[i], sql) {
                let ghost done = kept@;
                kept.push(self.queries[i].clone());
                assert(texts(kept@) =~= texts(done).push(all[i as int]));
            }
            i += 1;
        }
        proof {
            lemma_without_text(all, sql@, all.len());
            assert(all.subrange(0, all.len() as int) =~= all);
            lemma_kept_reads(all, texts(kept@));
        }
        self.queries = kept;
    }

    /// Drops the plans that a change makes stale: of the queries whose texts hold the table's name,
    /// or all where no table is known.
    pub fn evict_plan_cache(&mut self, table: &Option<String>)
        requires
            old(self).wf(),
        ensures
            final(self).wf(),
            final(self).hits == old(self).hits,
            final(self).list() == match *table {
                Some(t) => unrelated(old(self).list(), t@, old(self).list().len()),
                None => Seq::empty(),
            },
    {
        let name = match table {
            None => {
                self.queries = Vec::new();
                assert(self.list() =~= Seq::<Seq<char>>::empty());
                return;
            },
            Some(t) => t,
        };
        let ghost all = self.list();
        let mut kept: Vec<String> = Vec::new();
        let mut i: usize = 0;
        assert(texts(kept@) =~= Seq::<Seq<char>>::empty());
        while i < self.queries.len()
            invariant
                i <= self.queries@.len(),
                all == texts(self.queries@),
                all.len() == self.queries@.len(),
                texts(kept@) == unrelated(all, name@, i as nat),
            decreases self.queries@.len() - i,
        {
            assert(all[i as int] == self.queries@[i as int]@);
            if !contains(&self.queries[i], name) {
                let ghost done = kept@;
                kept.push(self.queries[i].clone());
                assert(texts(kept@) =~= texts(done).push(all[i as int]));
            }
            i += 1;
        }
        proof {
            lemma_unrelated(all, name@, all.len());
            assert(all.subrange(0, all.len() as int) =~= all);
            lemma_kept_reads(all, texts(kept@));
        }
        self.queries = kept;
    }

    /// How many plans are kept, and how often one was used.
    pub fn plan_cache_stats(&self) -> (r: (usize, u64))
        ensures
            r.0 == self.list().len(),
            r.1 == self.hits,
    {
        (self.queries.len(), self.hits)
    }
}

proof fn lemma_kept_reads(all: Seq<Seq<char>>, kept: Seq<Seq<char>>)
    requires
        forall|i: int| 0 <= i < all.len() ==> read_only(#[trigger] all[i]),
        forall|x: Seq<char>| #[trigger] kept.contains(x) ==> all.contains(x),
    ensures
        forall|i: int| 0 <= i < kept.len() ==> read_only(#[trigger] kept[i]),
{
    assert forall|i: int| 0 <= i < kept.len() implies read_only(#[trigger] kept[i]) by {
        assert(kept.contains(kept[i]));
        let j = choose|j: int| 0 <= j < all.len() && all[j] == kept[i];
        assert(read_only(all[j]));
    }
}

proof fn lemma_unrelated(s: Seq<Seq<char>>, table: Seq<char>, n: nat)
    requires
        n <= s.len(),
        s.no_duplicates(),
    ensures
        unrelated(s, table, n).no_duplicates(),
        forall|x: Seq<char>| #[trigger]
            unrelated(s, table, n).contains(x) <==> (!contains_seq(x, table) && s.subrange(
                0,
                n as int,
            ).contains(x)),
    decreases n,
{
    if n > 0 {
        let rest = unrelated(s, table, (n - 1) as nat);
        let all = unrelated(s, table, n);
        lemma_unrelated(s, table, (n - 1) as nat);
        let before = s.subrange(0, n - 1);
        let now = s.subrange(0, n as int);
        assert(now =~= before.push(s[n - 1]));
        assert forall|x: Seq<char>| #[trigger]
            all.contains(x) <==> (!contains_seq(x, table) && now.contains(x)) by {
            if rest.contains(x) {
                let j = choose|j: int| 0 <= j < rest.len() && rest[j] == x;
                assert(all[j] == x);
                let k = choose|k: int| 0 <= k < before.len() && before[k] == x;
                assert(now[k] == x);
            }
            if !contains_seq(x, table) && now.contains(x) {
                let k = choose|k: int| 0 <= k < now.len() && now[k] == x;
                if k < n - 1 {
                    assert(before[k] == x);
                    assert(rest.contains(x));
                } else {
                    assert(all[all.len() - 1] == x);
                }
            }
            if all.contains(x) {
                let j = choose|j: int| 0 <= j < all.len() && all[j] == x;
                if j < rest.len() {
                    assert(rest[j] == x);
                    assert(rest.contains(x));
                } else {
                    assert(now[n - 1] == x);
                }
            }
        }
        if !contains_seq(s[n - 1], table) {
            assert(!rest.contains(s[n - 1])) by {
                if rest.contains(s[n - 1]) {
                    let k = choose|k: int| 0 <= k < before.len() && before[k] == s[n - 1];
                    assert(s[k] == s[n - 1]);
                }
            }
        }
    }
}

/// Behind a change of a table, no query that mentions the table is run with a plan from before,
/// and the plans of the others are kept.
pub proof fn law_stale_plans_are_dropped(s: Seq<Seq<char>>, table: Seq<char>, sql: Seq<char>)
    requires
        s.no_duplicates(),
    ensures
        unrelated(s, table, s.len()).contains(sql) <==> s.contains(sql) && !contains_seq(
            sql,
            table,
        ),
{
    lemma_unrelated(s, table, s.len());
    assert(s.subrange(0, s.len() as int) =~= s);
}

// ---------------------------------------------------------------------------
// Prepared statements
// ---------------------------------------------------------------------------

/// The prepared statements of the session, by name.
pub struct PreparedStatements {
    pub templates: NameMap<String>,
}

/// How a prepared statement is run.
pub struct PreparedRun {
    /// Whether the plan that was made when it was prepared is tried first.
    pub plan_first: bool,
    /// The statement with its parameters in place.
    pub sql: String,
}

/// How a prepared statement is run, where `has_plan` says whether a plan was made of it.
pub open spec fn prepared_run(
    m: Map<Seq<char>, Seq<char>>,
    name: Seq<char>,
    params: Seq<Seq<char>>,
    has_plan: bool,
) -> Result<(bool, Seq<char>), Seq<char>> {
    match lookup(m, name) {
        None => Err("Prepared statement '"@ + name + "' does not exist"@),
        Some(template) => Ok(
            (
                params.len() == 0 && read_only(template) && has_plan,
                substituted(template, params),
            ),
        ),
    }
}

impl PreparedStatements {
    /// No statements.
    pub fn new() -> (r: PreparedStatements)
        ensures
            r.templates.deep_wf(),
            r.templates.deep() == Map::<Seq<char>, Seq<char>>::empty(),
    {
        let templates: NameMap<String> = NameMap::new();
        proof {
            templates.lemma_empty();
        }
        PreparedStatements { templates }
    }

    /// `PREPARE name AS statement`, in the place of a statement of the same name. The plan of a
    /// statement that only reads is kept for the same text, where one could be made.
    pub fn handle_prepare(
        &mut self,
        plans: &mut PlanCache,
        name: &str,
        template: &str,
        has_plan: bool,
    ) -> (r: String)
        requires
            old(self).templates.deep_wf(),
            old(plans).wf(),
        ensures
            final(self).templates.deep_wf(),
            final(plans).wf(),
            r@ == "Statement '"@ + name@ + "' prepared."@,
            final(self).templates.deep() == old(self).templates.deep().insert(name@, template@),
            final(plans).hits == old(plans).hits,
            final(plans).list() == if has_plan {
                with_plan(old(plans).list(), template@)
            } else {
                old(plans).list()
            },
    {
        if has_plan {
            plans.keep_plan(template);
        }
        self.templates.put(name.to_owned(), template.to_owned());
        concat3("Statement '", name, "' prepared.")
    }

    /// `EXECUTE name(…)`: how the statement is run.
    pub fn handle_execute_prepared(&self, name: &str, params: &Vec<String>, has_plan: bool) -> (r:
        Result<PreparedRun, String>)
        requires
            self.templates.deep_wf(),
        ensures
            match r {
                Ok(p) => prepared_run(self.templates.deep(), name@, texts(params@), has_plan) == Ok::<
                    (bool, Seq<char>),
                    Seq<char>,
                >((p.plan_first, p.sql@)),
                Err(e) => prepared_run(self.templates.deep(), name@, texts(params@), has_plan)
                    == Err::<(bool, Seq<char>), Seq<char>>(e@),
            },
    {
        match self.templates.lookup(name) {
            None => Err(concat3("Prepared statement '", name, "' does not exist")),
            Some(template) => {
                assert(texts(params@).len() == params@.len());
                let plan_first: bool = params.len() == 0 && is_read_only_sql(template) && has_plan;
                let sql = substitute_parameters(template, params);
                Ok(PreparedRun { plan_first, sql })
            },
        }
    }
}

/// A statement that was prepared and is executed without parameters runs as it was given.
pub proof fn law_prepared_statement_runs_as_given(
    m: Map<Seq<char>, Seq<char>>,
    name: Seq<char>,
    template: Seq<char>,
    has_plan: bool,
)
    ensures
        prepared_run(m.insert(name, template), name, Seq::empty(), has_plan) == Ok::<
            (bool, Seq<char>),
            Seq<char>,
        >((read_only(template) && has_plan, template)),
{
    law_text_without_placeholders_stays(template, Seq::empty());
}

// ---------------------------------------------------------------------------
// Reading
// ---------------------------------------------------------------------------

/// How a statement is answered as a stream.
pub struct StreamPlan {
    /// Whether the buffered rows of all tables are written first.
    pub flush_all: bool,
    /// Whether the rows come as they are made; if not, the statement is executed and then answered.
    pub direct: bool,
}

/// How a statement is answered as a stream.
pub fn plan_stream(sql: &str) -> (r: StreamPlan)
    ensures
        r.flush_all == read_only(sql@),
        r.direct == (read_only(sql@) || upper_text(first_word(sql@)) == "VALUES"@),
{
    let word = leading_word(sql).to_uppercase();
    let flush_all: bool = reading_word(&word);
    StreamPlan { flush_all, direct: flush_all || same(&word, "VALUES") }
}

/// Whether the next statement of a script is run: the last one succeeded, or failures are passed
/// over.
pub fn goes_on(failed: bool, continue_on_error: bool) -> (r: bool)
    ensures
        r == (!failed || continue_on_error),
{
    !failed || continue_on_error
}

/// Refuses a statement that does more than read.
pub fn execute_readonly(sql: &str) -> (r: Result<(), String>)
    ensures
        match r {
            Ok(_) => read_only(sql@),
            Err(e) => !read_only(sql@) && e@ == "execute_readonly rejects mutating SQL"@,
        },
{
    if is_read_only_sql(sql) {
        Ok(())
    } else {
        Err("execute_readonly rejects mutating SQL".to_owned())
    }
}

/// A stored plan is only taken for a statement that reads and has no parameters. A statement that was not
/// prepared is refused.
pub proof fn law_plans_are_for_reading(
    m: Map<Seq<char>, Seq<char>>,
    name: Seq<char>,
    params: Seq<Seq<char>>,
    has_plan: bool,
)
    ensures
        prepared_run(m, name, params, has_plan) is Err <==> !m.dom().contains(name),
        prepared_run(m, name, params, has_plan) matches Ok(p) ==> {
            &&& p.0 <==> has_plan && params.len() == 0 && read_only(m[name])
            &&& p.1 == substituted(m[name], params)
        },
{
}

/// A plan is kept once, and only for a statement that reads.
pub proof fn law_plans_are_kept_once(s: Seq<Seq<char>>, sql: Seq<char>)
    ensures
        read_only(sql) ==> with_plan(s, sql).contains(sql),
        !read_only(sql) ==> with_plan(s, sql) == s,
        with_plan(with_plan(s, sql), sql) == with_plan(s, sql),
        s.no_duplicates() ==> with_plan(s, sql).no_duplicates(),
        forall|q: Seq<char>| #[trigger] s.contains(q) ==> with_plan(s, sql).contains(q),
{
    let after = with_plan(s, sql);
    if read_only(sql) && !s.contains(sql) {
        assert(after[s.len() as int] == sql);
    }
    assert forall|q: Seq<char>| #[trigger] s.contains(q) implies after.contains(q) by {
        let i = choose|i: int| 0 <= i < s.len() && s[i] == q;
        assert(after[i] == q);
    }
}

/// A procedure that was created is called by its name and runs the statements of its body; one that is not
/// there is refused.
pub proof fn law_called_procedures(m: Map<Seq<char>, Seq<char>>, sql: Seq<char>, body: Seq<char>)
    requires
        called_procedure(sql) is Ok,
    ensures
        call_plan(m.insert(called_procedure(sql)->Ok_0, body), sql) == Ok::<
            (Seq<char>, Seq<Seq<char>>),
            Seq<char>,
        >((called_procedure(sql)->Ok_0, statements(body))),
        !m.dom().contains(called_procedure(sql)->Ok_0) ==> call_plan(m, sql) is Err,
{
}

} // verus!
