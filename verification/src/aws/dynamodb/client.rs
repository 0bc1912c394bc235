//! DynamoDB table names, table creation and item building.
//!
//! All table names get a prefix, enabling environment-based table isolation (e.g., `prod-users`
//! vs `dev-users`).

use crate::text::{concat_strs, contains, law_part_stands_somewhere};
use crate::text_map::TextMap;
use crate::web::error::{plain, Error};
use vstd::prelude::*;

verus! {

broadcast use vstd::string::group_string_axioms;

/// The name of a table under a prefix.
pub open spec fn prefixed(prefix: Seq<char>, table: Seq<char>) -> Seq<char> {
    prefix + "-"@ + table
}

/// Table names with a prefix applied.
///
/// All table names are prefixed with the value of the `DYNAMO_TABLE_PREFIX` environment variable.
/// This allows the same code to work across different environments without changes.
pub struct DynamoClient {
    pub table_prefix: String,
}

/// What came of asking for a table.
pub enum TableProbe {
    /// The table is there, in any state.
    Found,
    /// There is no such table.
    NotFound,
    /// The question was not answered.
    Failed(Error),
}

/// What to do in order to have a table.
pub enum TablePlan {
    /// Nothing, the table is there.
    Done,
    /// Create the table of the given name.
    Create(String),
}

/// What came of polling the status of a table.
pub enum TableStatus {
    Active,
    NotActive,
    Failed(Error),
}

/// How often the status of a fresh table is polled.
pub const MAX_STATUS_POLLS: u32 = 15;

/// The seconds between two polls.
pub const POLL_INTERVAL_SECONDS: u64 = 10;

/// `before`, then `name`, then `after`.
fn framed(before: &str, name: &str, after: &str) -> (r: String)
    ensures
        r@ == before@ + name@ + after@,
{
    let mut r = concat_strs(before, name);
    r.append(after);
    r
}

impl DynamoClient {
    /// Returns the effective table name with prefix applied.
    ///
    /// Given logical name `users` and prefix `myapp-prod`, returns `myapp-prod-users`.
    pub fn effective_name(&self, table: &str) -> (r: String)
        ensures
            r@ == prefixed(self.table_prefix@, table@),
    {
        framed(self.table_prefix.as_str(), "-", table)
    }

    /// Checks if a table exists, given what came of asking for it.
    ///
    /// Returns `true` if the table exists (in any state), `false` if not found.
    pub fn does_table_exist(&self, name: &str, probe: TableProbe) -> (r: Result<bool, Error>)
        ensures
            match (r, probe) {
                (Ok(exists), TableProbe::Found) => exists,
                (Ok(exists), TableProbe::NotFound) => !exists,
                (Err(err), TableProbe::Failed(cause)) => err@ == cause@.with_context(
                    "Cannot access DynamoDB table '"@ + prefixed(self.table_prefix@, name@) + "'"@,
                ),
                _ => false,
            },
    {
        match probe {
            TableProbe::Found => Ok(true),
            TableProbe::NotFound => Ok(false),
            TableProbe::Failed(cause) => {
                let effective_name = self.effective_name(name);
                let message = framed(
                    "Cannot access DynamoDB table '",
                    effective_name.as_str(),
                    "'",
                );
                Err(cause.context(message.as_str()))
            },
        }
    }

    /// Says what to do in order to have a table, given what came of asking for it.
    pub fn create_table(&self, name: &str, probe: TableProbe) -> (r: Result<TablePlan, Error>)
        ensures
            match (r, probe) {
                (Ok(plan), TableProbe::Found) => plan is Done,
                (Ok(plan), TableProbe::NotFound) => plan is Create && plan->Create_0@ == prefixed(
                    self.table_prefix@,
                    name@,
                ),
                (Err(err), TableProbe::Failed(cause)) => err@ == cause@.with_context(
                    "Cannot access DynamoDB table '"@ + prefixed(self.table_prefix@, name@) + "'"@,
                ),
                _ => false,
            },
    {
        match self.does_table_exist(name, probe) {
            Ok(true) => Ok(TablePlan::Done),
            Ok(false) => Ok(TablePlan::Create(self.effective_name(name))),
            Err(err) => Err(err),
        }
    }

    /// Reports that the request for a table could not be put together.
    pub fn request_failed(&self, name: &str, cause: Error) -> (r: Error)
        ensures
            r@ == cause@.with_context(
                "Faild to build proper create table request for: "@ + prefixed(
                    self.table_prefix@,
                    name@,
                ),
            ),
    {
        let effective_name = self.effective_name(name);
        let message = concat_strs(
            "Faild to build proper create table request for: ",
            effective_name.as_str(),
        );
        cause.context(message.as_str())
    }

    /// Reports that a table could not be created.
    pub fn creation_failed(&self, name: &str, cause: Error) -> (r: Error)
        ensures
            r@ == cause@.with_context(
                "Failed to create DynamoDB table '"@ + prefixed(self.table_prefix@, name@) + "'"@,
            ),
    {
        let effective_name = self.effective_name(name);
        let message = framed("Failed to create DynamoDB table '", effective_name.as_str(), "'");
        cause.context(message.as_str())
    }

    /// Begins to wait for a fresh table to become active. The table goes by its effective name, to
    /// which messages apply the prefix once more.
    pub fn wait_until_table_becomes_active(&self, table_name: &str) -> (r: TableWait)
        ensures
            r@ == (TableWaitView {
                name: prefixed(self.table_prefix@, table_name@),
                polls: 0,
            }),
    {
        TableWait { name: self.effective_name(table_name), polls: 0 }
    }
}

/// How far the wait for a table has come.
pub struct TableWaitView {
    pub name: Seq<char>,
    pub polls: nat,
}

/// The wait for a fresh table to become active, up to about two and a half minutes.
pub struct TableWait {
    name: String,
    polls: u32,
}

impl View for TableWait {
    type V = TableWaitView;

    closed spec fn view(&self) -> TableWaitView {
        TableWaitView { name: self.name@, polls: self.polls as nat }
    }
}

impl TableWait {
    #[verifier::type_invariant]
    spec fn is_bounded(self) -> bool {
        self.polls <= MAX_STATUS_POLLS
    }

    /// Whether to poll the status once more, else the report that it took too long.
    pub fn begin_poll(&mut self) -> (r: Result<(), Error>)
        ensures
            old(self)@.polls <= MAX_STATUS_POLLS,
            final(self)@.name == old(self)@.name,
            match r {
                Ok(_) => old(self)@.polls < MAX_STATUS_POLLS && final(self)@.polls
                    == old(self)@.polls + 1,
                Err(err) => {
                    &&& old(self)@.polls == MAX_STATUS_POLLS
                    &&& final(self)@.polls == old(self)@.polls
                    &&& err@ == plain(
                        "Table '"@ + old(self)@.name + "' did not become ACTIVE in time"@,
                    )
                },
            },
    {
        proof {
            use_type_invariant(&*self);
        }
        if self.polls < MAX_STATUS_POLLS {
            self.polls = self.polls + 1;
            Ok(())
        } else {
            let message = framed("Table '", self.name.as_str(), "' did not become ACTIVE in time");
            Err(Error::new(message.as_str()))
        }
    }

    /// Takes what came of a poll: whether the table is active. Where it is not, the next poll is
    /// due after [`POLL_INTERVAL_SECONDS`].
    pub fn polled(&self, status: TableStatus) -> (r: Result<bool, Error>)
        ensures
            match (r, status) {
                (Ok(active), TableStatus::Active) => active,
                (Ok(active), TableStatus::NotActive) => !active,
                (Err(err), TableStatus::Failed(cause)) => err@ == cause@.with_context(
                    "Failed to check table status of '"@ + self@.name + "'"@,
                ),
                _ => false,
            },
    {
        match status {
            TableStatus::Active => Ok(true),
            TableStatus::NotActive => Ok(false),
            TableStatus::Failed(cause) => {
                let message = framed("Failed to check table status of '", self.name.as_str(), "'");
                Err(cause.context(message.as_str()))
            },
        }
    }
}

/// An attribute of an item: a string, or any other value as the database holds it.
#[derive(Debug)]
pub enum AttributeValue<A> {
    S(String),
    Other(A),
}

/// Builder for constructing DynamoDB items with additional attributes.
///
/// Useful when you need to add computed or derived attributes to a serialized entity.
pub struct ItemBuilder<A> {
    item: TextMap<AttributeValue<A>>,
}

impl<A> View for ItemBuilder<A> {
    type V = Map<Seq<char>, AttributeValue<A>>;

    closed spec fn view(&self) -> Map<Seq<char>, AttributeValue<A>> {
        self.item@
    }
}

impl<A> ItemBuilder<A> {
    /// Creates a builder from what serializing an entity came to.
    pub fn from_entity(serialized: Result<TextMap<AttributeValue<A>>, Error>) -> (r: Result<
        ItemBuilder<A>,
        Error,
    >)
        ensures
            match (r, serialized) {
                (Ok(builder), Ok(item)) => builder@ == item@,
                (Err(err), Err(cause)) => err@ == cause@.with_context(
                    "Error serializing entity into DynamoDB item"@,
                ),
                _ => false,
            },
    {
        match serialized {
            Ok(item) => Ok(ItemBuilder { item }),
            Err(cause) => Err(cause.context("Error serializing entity into DynamoDB item")),
        }
    }

    /// Adds a string attribute to the item, in place of the one that may be there.
    pub fn add_str(&mut self, key: &str, value: &str)
        ensures
            final(self)@.dom() == old(self)@.dom().insert(key@),
            final(self)@[key@] is S,
            final(self)@[key@]->S_0@ == value@,
            forall|other: Seq<char>|
                other != key@ && old(self)@.dom().contains(other) ==> #[trigger] final(self)@[other]
                    == old(self)@[other],
    {
        self.item.insert(key.to_owned(), AttributeValue::S(value.to_owned()));
    }

    /// Consumes the builder and returns the item map.
    pub fn build(self) -> (r: TextMap<AttributeValue<A>>)
        ensures
            r@ == self@,
    {
        self.item
    }
}

/// Different tables have different effective names, under the same prefix.
pub proof fn law_tables_stay_apart(prefix: Seq<char>, a: Seq<char>, b: Seq<char>)
    requires
        prefixed(prefix, a) == prefixed(prefix, b),
    ensures
        a == b,
{
    reveal_strlit("-");
    let n = prefix.len() as int + 1;
    assert(prefixed(prefix, a).skip(n) =~= a);
    assert(prefixed(prefix, b).skip(n) =~= b);
}

/// A table goes by the prefix, a dash and its own name; environments with different prefixes never
/// share a table.
pub proof fn law_prefix_comes_before_tables(
    a: &DynamoClient,
    b: &DynamoClient,
    table: &str,
    x: String,
    y: String,
)
    requires
        call_ensures(DynamoClient::effective_name, (a, table), x),
        call_ensures(DynamoClient::effective_name, (b, table), y),
    ensures
        x@ == a.table_prefix@ + seq!['-'] + table@,
        x@ == y@ ==> a.table_prefix@ == b.table_prefix@,
{
    reveal_strlit("-");
    assert("-"@ =~= seq!['-']);
    if x@ == y@ {
        let n = a.table_prefix@.len() as int;
        assert(x@.len() == n + 1 + table@.len());
        assert(y@.len() == b.table_prefix@.len() + 1 + table@.len());
        assert(x@.take(n) =~= a.table_prefix@);
        assert(y@.take(n) =~= b.table_prefix@);
    }
}

/// A table is there exactly if asking for it found it, in whatever state; where the question was not
/// answered, that is reported with its cause.
pub proof fn law_probes_are_believed(
    client: &DynamoClient,
    table: &str,
    probe: TableProbe,
    r: Result<bool, Error>,
)
    requires
        call_ensures(DynamoClient::does_table_exist, (client, table, probe), r),
    ensures
        r is Err <==> probe is Failed,
        r is Ok ==> (r->Ok_0 <==> probe is Found),
        r is Err ==> r->Err_0@.api == probe->Failed_0@.api && r->Err_0@.messages.drop_first()
            == probe->Failed_0@.messages,
{
    if r is Err {
        assert(r->Err_0@.messages.drop_first() =~= probe->Failed_0@.messages);
    }
}

/// A table is created exactly if it is not there, under its effective name.
pub proof fn law_missing_tables_are_created(
    client: &DynamoClient,
    table: &str,
    probe: TableProbe,
    r: Result<TablePlan, Error>,
    name: String,
)
    requires
        call_ensures(DynamoClient::create_table, (client, table, probe), r),
        call_ensures(DynamoClient::effective_name, (client, table), name),
    ensures
        probe is Found ==> r is Ok && r->Ok_0 is Done,
        probe is NotFound ==> r is Ok && r->Ok_0 is Create && r->Ok_0->Create_0@ == name@,
        probe is Failed ==> r is Err && r->Err_0@.api == probe->Failed_0@.api,
{
}

/// A fresh table is polled 15 times and no more; each poll counts, and after the last one the wait is
/// given up with an error about that table.
pub proof fn law_waits_end(wait: &mut TableWait, r: Result<(), Error>)
    requires
        call_ensures(TableWait::begin_poll, (wait,), r),
    ensures
        r is Ok <==> old(wait)@.polls < 15,
        r is Ok ==> final(wait)@.polls == old(wait)@.polls + 1,
        r is Err ==> final(wait)@.polls == old(wait)@.polls && contains(
            r->Err_0@.messages[0],
            old(wait)@.name,
        ),
        final(wait)@.name == old(wait)@.name,
{
    law_part_stands_somewhere(
        old(wait)@.name,
        "Table '"@,
        old(wait)@.name,
        "' did not become ACTIVE in time"@,
    );
}

/// A wait begins with no polls, and is over as soon as a poll finds the table active.
pub proof fn law_active_tables_end_the_wait(
    client: &DynamoClient,
    table: &str,
    fresh: TableWait,
    wait: &TableWait,
    status: TableStatus,
    r: Result<bool, Error>,
)
    requires
        call_ensures(DynamoClient::wait_until_table_becomes_active, (client, table), fresh),
        call_ensures(TableWait::polled, (wait, status), r),
    ensures
        fresh@.polls == 0,
        status is Active ==> r is Ok && r->Ok_0,
        status is NotActive ==> r is Ok && !r->Ok_0,
        status is Failed ==> r is Err && r->Err_0@.api == status->Failed_0@.api
            && r->Err_0@.messages.drop_first() == status->Failed_0@.messages,
{
    if status is Failed {
        assert(r->Err_0@.messages.drop_first() =~= status->Failed_0@.messages);
    }
}

/// An attribute that is added is in the item, in place of one of the same name, and leaves all
/// others as they are.
pub proof fn law_attributes_are_added<A>(
    builder: &mut ItemBuilder<A>,
    key: &str,
    value: &str,
    other: Seq<char>,
)
    requires
        call_ensures(ItemBuilder::<A>::add_str, (builder, key, value), ()),
        other != key@,
    ensures
        final(builder)@.dom().contains(key@),
        final(builder)@[key@] is S && final(builder)@[key@]->S_0@ == value@,
        final(builder)@.dom().contains(other) <==> old(builder)@.dom().contains(other),
        old(builder)@.dom().contains(other) ==> final(builder)@[other] == old(builder)@[other],
{
}

/// An item is built of what the entity was serialized into; a failure to serialize it is handed on
/// with its cause.
pub proof fn law_items_come_from_entities<A>(
    serialized: Result<TextMap<AttributeValue<A>>, Error>,
    r: Result<ItemBuilder<A>, Error>,
    item: TextMap<AttributeValue<A>>,
)
    requires
        call_ensures(ItemBuilder::<A>::from_entity, (serialized,), r),
        r is Ok ==> call_ensures(ItemBuilder::<A>::build, (r->Ok_0,), item),
    ensures
        r is Ok <==> serialized is Ok,
        r is Ok ==> item@ == serialized->Ok_0@,
        r is Err ==> r->Err_0@.api == serialized->Err_0@.api && r->Err_0@.messages.drop_first()
            == serialized->Err_0@.messages,
{
    if r is Err {
        assert(r->Err_0@.messages.drop_first() =~= serialized->Err_0@.messages);
    }
}

/// Failures around a table are reported with their cause and with the effective name of the table.
pub proof fn law_table_failures_say_why(
    client: &DynamoClient,
    table: &str,
    cause: Error,
    name: String,
    a: Error,
    b: Error,
)
    requires
        call_ensures(DynamoClient::effective_name, (client, table), name),
        call_ensures(DynamoClient::creation_failed, (client, table, cause), a),
        call_ensures(DynamoClient::request_failed, (client, table, cause), b),
    ensures
        a@.api == cause@.api && a@.messages.drop_first() == cause@.messages,
        contains(a@.messages[0], name@),
        b@.api == cause@.api && b@.messages.drop_first() == cause@.messages,
        contains(b@.messages[0], name@),
{
    assert(a@.messages.drop_first() =~= cause@.messages);
    assert(b@.messages.drop_first() =~= cause@.messages);
    law_part_stands_somewhere(name@, "Failed to create DynamoDB table '"@, name@, "'"@);
    let none = Seq::<char>::empty();
    let start = "Faild to build proper create table request for: "@;
    law_part_stands_somewhere(name@, start, name@, none);
    assert(start + name@ + none =~= start + name@);
}

/// A wait is for the table of the effective name.
pub proof fn law_waits_are_for_the_table(
    client: &DynamoClient,
    table: &str,
    name: String,
    r: TableWait,
)
    requires
        call_ensures(DynamoClient::effective_name, (client, table), name),
        call_ensures(DynamoClient::wait_until_table_becomes_active, (client, table), r),
    ensures
        r@.name == name@,
{
}

/// A wait takes two and a half minutes at most.
pub proof fn law_waits_take_two_and_a_half_minutes()
    ensures
        MAX_STATUS_POLLS * POLL_INTERVAL_SECONDS == 150,
{
}

} // verus!
