//! Background tasks: what they are, where they are queued, and what becomes of those that fail.

use crate::clock::Timestamp;
use crate::config::Config;
use crate::ids;
use crate::json::{self, FieldValue, JsonDocument, JsonField, ObjectWriter, Scalar};
use crate::text;
use vstd::prelude::*;

verus! {

// ---------------------------------------------------------------------------------------------
// Retrying
// ---------------------------------------------------------------------------------------------

/// Two to a power, for a power that fits.
pub fn power_of_two(n: u32) -> (r: u64)
    requires
        n < 64,
    ensures
        r == vstd::arithmetic::power2::pow2(n as nat),
    decreases n,
{
    proof {
        vstd::arithmetic::power2::lemma2_to64();
        vstd::arithmetic::power2::lemma2_to64_rest();
        if n < 63 {
            vstd::arithmetic::power2::lemma_pow2_strictly_increases(n as nat, 63);
        }
    }
    if n == 0 {
        1
    } else {
        proof {
            vstd::arithmetic::power2::lemma_pow2_unfold(n as nat);
        }
        2 * power_of_two(n - 1)
    }
}

/// A task that can be tried again after it failed.
pub trait Task {
    /// How often the task has been tried again.
    open spec fn retries(&self) -> u32 {
        0
    }

    /// How often the task may be tried again.
    open spec fn retry_limit(&self) -> u32 {
        3
    }

    /// How often the task has been tried again.
    fn retry_count(&self) -> (r: u32)
        ensures
            r == self.retries(),
    ;

    /// How often the task may be tried again.
    fn max_retries(&self) -> (r: u32)
        ensures
            r == self.retry_limit(),
    ;

    /// Whether the task is to be tried again if it fails now.
    fn should_retry(&self) -> (r: bool)
        ensures
            r == (self.retries() < self.retry_limit()),
    {
        self.retry_count() < self.max_retries()
    }

    /// How long to wait before the task is tried again, in seconds: twice as long each time.
    fn retry_delay(&self) -> (r: u64)
        requires
            self.retries() < 64,
        ensures
            r == vstd::arithmetic::power2::pow2(self.retries() as nat),
    {
        power_of_two(self.retry_count())
    }
}

// ---------------------------------------------------------------------------------------------
// Reading fields
// ---------------------------------------------------------------------------------------------

/// The text under a key, if there is one.
pub open spec fn text_at(fields: Map<Seq<char>, JsonField>, key: Seq<char>) -> Option<Seq<char>> {
    match json::lookup(fields, key) {
        Some(JsonField::Text(s)) => Some(s),
        _ => None,
    }
}

/// The count under a key, where a missing one is zero; nothing where there is something else.
pub open spec fn count_at(fields: Map<Seq<char>, JsonField>, key: Seq<char>) -> Option<u32> {
    match json::lookup(fields, key) {
        None => Some(0),
        Some(JsonField::Unsigned(n)) => if n <= u32::MAX {
            Some(n as u32)
        } else {
            None
        },
        _ => None,
    }
}

fn read_text_at(v: &serde_json::Value, key: &str) -> (r: Option<String>)
    ensures
        text::optional_text(r) == text_at(json::json_view(*v).fields(), key@),
{
    match json::field_value(v, key) {
        FieldValue::Text(s) => Some(s),
        _ => None,
    }
}

fn read_count_at(v: &serde_json::Value, key: &str) -> (r: Option<u32>)
    ensures
        r == count_at(json::json_view(*v).fields(), key@),
{
    match json::field_value(v, key) {
        FieldValue::Missing => Some(0),
        FieldValue::Unsigned(n) => if n <= u32::MAX as u64 {
            Some(n as u32)
        } else {
            None
        },
        _ => None,
    }
}

// ---------------------------------------------------------------------------------------------
// Kinds of tasks
// ---------------------------------------------------------------------------------------------

proof fn lemma_type_is_no_private_key()
    ensures
        "type"@ != json::private_key(),
{
    reveal_strlit("type");
    reveal_strlit("$serde_json::private::RawValue");
    assert("type"@[0] == 't' && json::private_key()[0] == '$');
}

/// Sends an email.
#[derive(Debug, Clone)]
pub struct EmailTask {
    pub task_type: String,
    pub to: String,
    pub subject: String,
    pub body: String,
    pub attempts: u32,
    pub retry_count: u32,
}

/// The contents of an email task.
#[verifier::ext_equal]
pub struct EmailView {
    pub task_type: Seq<char>,
    pub to: Seq<char>,
    pub subject: Seq<char>,
    pub body: Seq<char>,
    pub attempts: u32,
    pub retry_count: u32,
}

impl View for EmailTask {
    type V = EmailView;

    open spec fn view(&self) -> EmailView {
        EmailView {
            task_type: self.task_type@,
            to: self.to@,
            subject: self.subject@,
            body: self.body@,
            attempts: self.attempts,
            retry_count: self.retry_count,
        }
    }
}

/// The members of the JSON object that an email task is written as.
pub open spec fn email_members(t: EmailView) -> Seq<(Seq<char>, JsonField)> {
    seq![
        ("type"@, JsonField::Text(t.task_type)),
        ("to"@, JsonField::Text(t.to)),
        ("subject"@, JsonField::Text(t.subject)),
        ("body"@, JsonField::Text(t.body)),
        ("attempts"@, JsonField::Unsigned(t.attempts as u64)),
        ("retry_count"@, JsonField::Unsigned(t.retry_count as u64)),
    ]
}

/// The email task that a document holds, if it holds one.
pub open spec fn email_in(fields: Map<Seq<char>, JsonField>) -> Option<EmailView> {
    match (
        text_at(fields, "type"@),
        text_at(fields, "to"@),
        text_at(fields, "subject"@),
        text_at(fields, "body"@),
        count_at(fields, "attempts"@),
        count_at(fields, "retry_count"@),
    ) {
        (
            Some(task_type),
            Some(to),
            Some(subject),
            Some(body),
            Some(attempts),
            Some(retry_count),
        ) => Some(EmailView { task_type, to, subject, body, attempts, retry_count }),
        _ => None,
    }
}

/// An email task that was written is read back as it was.
pub proof fn emails_are_read_back(t: EmailView)
    ensures
        json::readable(email_members(t)),
        email_in(json::members_map(email_members(t))) == Some(t),
{
    lemma_type_is_no_private_key();
    reveal_strlit("type");
    reveal_strlit("to");
    reveal_strlit("subject");
    reveal_strlit("body");
    reveal_strlit("attempts");
    reveal_strlit("retry_count");
    let m = email_members(t);
    assert("type"@[1] == 'y' && "to"@[1] == 'o' && "subject"@[1] == 'u' && "body"@[1] == 'o');
    assert("to"@[0] == 't' && "body"@[0] == 'b' && "attempts"@[0] == 'a' && "retry_count"@[0]
        == 'r');
    assert("type"@[0] == 't' && "subject"@[0] == 's');
    reveal_with_fuel(json::members_map, 7);
    let m5 = m.drop_last();
    let m4 = m5.drop_last();
    let m3 = m4.drop_last();
    let m2 = m3.drop_last();
    let m1 = m2.drop_last();
    assert(m1.drop_last().len() == 0);
    assert(m1.last() == m[0] && m2.last() == m[1] && m3.last() == m[2]);
    assert(m4.last() == m[3] && m5.last() == m[4] && m.last() == m[5]);
}

impl EmailTask {
    pub fn new(to: String, subject: String, body: String) -> (r: EmailTask)
        ensures
            r@ == (EmailView {
                task_type: "email"@,
                to: to@,
                subject: subject@,
                body: body@,
                attempts: 0,
                retry_count: 0,
            }),
    {
        EmailTask { task_type: "email".to_owned(), to, subject, body, attempts: 0, retry_count: 0 }
    }

    /// The task as a JSON object.
    pub fn to_json(&self) -> (r: String)
        ensures
            r@ == json::object_text(email_members(self@)),
    {
        let writer = ObjectWriter::new().member(
            "type",
            json::text_scalar(self.task_type.as_str()),
        ).member("to", json::text_scalar(self.to.as_str())).member(
            "subject",
            json::text_scalar(self.subject.as_str()),
        ).member("body", json::text_scalar(self.body.as_str())).member(
            "attempts",
            Scalar::Unsigned(self.attempts as u64),
        ).member("retry_count", Scalar::Unsigned(self.retry_count as u64));
        proof {
            assert(writer.members() =~= email_members(self@));
        }
        writer.finish()
    }

    fn from_document(v: &serde_json::Value) -> (r: Option<EmailTask>)
        ensures
            match r {
                Some(t) => email_in(json::json_view(*v).fields()) == Some(t@),
                None => email_in(json::json_view(*v).fields()) is None,
            },
    {
        match (
            read_text_at(v, "type"),
            read_text_at(v, "to"),
            read_text_at(v, "subject"),
            read_text_at(v, "body"),
            read_count_at(v, "attempts"),
            read_count_at(v, "retry_count"),
        ) {
            (
                Some(task_type),
                Some(to),
                Some(subject),
                Some(body),
                Some(attempts),
                Some(retry_count),
            ) => Some(EmailTask { task_type, to, subject, body, attempts, retry_count }),
            _ => None,
        }
    }
}

impl Task for EmailTask {
    open spec fn retries(&self) -> u32 {
        self.retry_count
    }

    fn retry_count(&self) -> u32 {
        self.retry_count
    }

    fn max_retries(&self) -> u32 {
        3
    }
}

/// Tells a user something.
#[derive(Debug, Clone)]
pub struct NotificationTask {
    pub task_type: String,
    pub user_id: u128,
    pub message: String,
    pub channel: String,
    pub retry_count: u32,
}

/// The contents of a notification task.
#[verifier::ext_equal]
pub struct NotificationView {
    pub task_type: Seq<char>,
    pub user_id: u128,
    pub message: Seq<char>,
    pub channel: Seq<char>,
    pub retry_count: u32,
}

impl View for NotificationTask {
    type V = NotificationView;

    open spec fn view(&self) -> NotificationView {
        NotificationView {
            task_type: self.task_type@,
            user_id: self.user_id,
            message: self.message@,
            channel: self.channel@,
            retry_count: self.retry_count,
        }
    }
}

/// The members of the JSON object that a notification task is written as.
pub open spec fn notification_members(t: NotificationView) -> Seq<(Seq<char>, JsonField)> {
    seq![
        ("type"@, JsonField::Text(t.task_type)),
        ("user_id"@, JsonField::Text(ids::uuid_text(t.user_id))),
        ("message"@, JsonField::Text(t.message)),
        ("channel"@, JsonField::Text(t.channel)),
        ("retry_count"@, JsonField::Unsigned(t.retry_count as u64)),
    ]
}

/// The identifier under a key, if there is one.
pub open spec fn id_at(fields: Map<Seq<char>, JsonField>, key: Seq<char>) -> Option<u128> {
    match text_at(fields, key) {
        Some(s) => ids::uuid_parsed(s),
        None => None,
    }
}

/// The notification task that a document holds, if it holds one.
pub open spec fn notification_in(fields: Map<Seq<char>, JsonField>) -> Option<NotificationView> {
    match (
        text_at(fields, "type"@),
        id_at(fields, "user_id"@),
        text_at(fields, "message"@),
        text_at(fields, "channel"@),
        count_at(fields, "retry_count"@),
    ) {
        (
            Some(task_type),
            Some(user_id),
            Some(message),
            Some(channel),
            Some(retry_count),
        ) => Some(NotificationView { task_type, user_id, message, channel, retry_count }),
        _ => None,
    }
}

proof fn lemma_notification_members(t: NotificationView)
    ensures
        json::readable(notification_members(t)),
        ({
            let fields = json::members_map(notification_members(t));
            &&& text_at(fields, "type"@) == Some(t.task_type)
            &&& text_at(fields, "user_id"@) == Some(ids::uuid_text(t.user_id))
            &&& text_at(fields, "message"@) == Some(t.message)
            &&& text_at(fields, "channel"@) == Some(t.channel)
            &&& count_at(fields, "retry_count"@) == Some(t.retry_count)
        }),
{
    lemma_type_is_no_private_key();
    reveal_strlit("type");
    reveal_strlit("user_id");
    reveal_strlit("message");
    reveal_strlit("channel");
    reveal_strlit("retry_count");
    let m = notification_members(t);
    assert("type"@[0] == 't' && "user_id"@[0] == 'u' && "message"@[0] == 'm');
    assert("channel"@[0] == 'c' && "retry_count"@[0] == 'r');
    reveal_with_fuel(json::members_map, 6);
    let m4 = m.drop_last();
    let m3 = m4.drop_last();
    let m2 = m3.drop_last();
    let m1 = m2.drop_last();
    assert(m1.drop_last().len() == 0);
    assert(m1.last() == m[0] && m2.last() == m[1] && m3.last() == m[2]);
    assert(m4.last() == m[3] && m.last() == m[4]);
}

/// The ways in which a user can be told something.
#[derive(Debug, Clone, Copy, PartialEq, Eq, Structural)]
pub enum Channel {
    Push,
    Sms,
    Email,
    Unknown,
}

/// The way that a name stands for.
pub open spec fn channel_named(name: Seq<char>) -> Channel {
    if name == "push"@ {
        Channel::Push
    } else if name == "sms"@ {
        Channel::Sms
    } else if name == "email"@ {
        Channel::Email
    } else {
        Channel::Unknown
    }
}

impl NotificationTask {
    pub fn new(user_id: u128, message: String, channel: String) -> (r: NotificationTask)
        ensures
            r@ == (NotificationView {
                task_type: "notification"@,
                user_id,
                message: message@,
                channel: channel@,
                retry_count: 0,
            }),
    {
        NotificationTask {
            task_type: "notification".to_owned(),
            user_id,
            message,
            channel,
            retry_count: 0,
        }
    }

    /// The task as a JSON object.
    pub fn to_json(&self) -> (r: String)
        ensures
            r@ == json::object_text(notification_members(self@)),
    {
        let id = ids::uuid_to_text(self.user_id);
        let writer = ObjectWriter::new().member(
            "type",
            json::text_scalar(self.task_type.as_str()),
        ).member("user_id", Scalar::Text(id)).member(
            "message",
            json::text_scalar(self.message.as_str()),
        ).member("channel", json::text_scalar(self.channel.as_str())).member(
            "retry_count",
            Scalar::Unsigned(self.retry_count as u64),
        );
        proof {
            assert(writer.members() =~= notification_members(self@));
        }
        writer.finish()
    }

    /// The way in which the user is to be told.
    pub fn channel(&self) -> (r: Channel)
        ensures
            r == channel_named(self.channel@),
    {
        let name = self.channel.as_str();
        if text::same(name, "push") {
            Channel::Push
        } else if text::same(name, "sms") {
            Channel::Sms
        } else if text::same(name, "email") {
            Channel::Email
        } else {
            Channel::Unknown
        }
    }

    fn from_document(v: &serde_json::Value) -> (r: Option<NotificationTask>)
        ensures
            match r {
                Some(t) => notification_in(json::json_view(*v).fields()) == Some(t@),
                None => notification_in(json::json_view(*v).fields()) is None,
            },
            forall|made: NotificationView|
                json::json_view(*v).fields() == #[trigger] json::members_map(notification_members(made))
                    ==> r is Some && r->0@ == made,
    {
        let id = match read_text_at(v, "user_id") {
            Some(s) => {
                let id = ids::parse_uuid(s.as_str());
                proof {
                    assert forall|made: NotificationView|
                        json::json_view(*v).fields() == #[trigger] json::members_map(
                            notification_members(made),
                        ) implies id == Some(made.user_id) by {
                        lemma_notification_members(made);
                    }
                }
                id
            },
            None => None,
        };
        proof {
            assert forall|made: NotificationView|
                json::json_view(*v).fields() == #[trigger] json::members_map(notification_members(made))
                implies notification_in(json::json_view(*v).fields()) == Some(made) by {
                lemma_notification_members(made);
            }
        }
        match (
            read_text_at(v, "type"),
            id,
            read_text_at(v, "message"),
            read_text_at(v, "channel"),
            read_count_at(v, "retry_count"),
        ) {
            (
                Some(task_type),
                Some(user_id),
                Some(message),
                Some(channel),
                Some(retry_count),
            ) => Some(NotificationTask { task_type, user_id, message, channel, retry_count }),
            _ => None,
        }
    }
}

impl Task for NotificationTask {
    open spec fn retries(&self) -> u32 {
        self.retry_count
    }

    fn retry_count(&self) -> u32 {
        self.retry_count
    }

    fn max_retries(&self) -> u32 {
        3
    }
}

/// Removes old rows from a table.
#[derive(Debug, Clone)]
pub struct DataCleanupTask {
    pub task_type: String,
    pub table: String,
    pub older_than_days: i64,
    pub retry_count: u32,
}

/// The contents of a cleanup task.
#[verifier::ext_equal]
pub struct CleanupView {
    pub task_type: Seq<char>,
    pub table: Seq<char>,
    pub older_than_days: i64,
    pub retry_count: u32,
}

impl View for DataCleanupTask {
    type V = CleanupView;

    open spec fn view(&self) -> CleanupView {
        CleanupView {
            task_type: self.task_type@,
            table: self.table@,
            older_than_days: self.older_than_days,
            retry_count: self.retry_count,
        }
    }
}

/// The members of the JSON object that a cleanup task is written as.
pub open spec fn cleanup_members(t: CleanupView) -> Seq<(Seq<char>, JsonField)> {
    seq![
        ("type"@, JsonField::Text(t.task_type)),
        ("table"@, JsonField::Text(t.table)),
        ("older_than_days"@, json::integer_field(t.older_than_days as int)),
        ("retry_count"@, JsonField::Unsigned(t.retry_count as u64)),
    ]
}

/// The cleanup task that a document holds, if it holds one.
pub open spec fn cleanup_in(fields: Map<Seq<char>, JsonField>) -> Option<CleanupView> {
    match (
        text_at(fields, "type"@),
        text_at(fields, "table"@),
        json::field_integer(json::lookup(fields, "older_than_days"@)),
        count_at(fields, "retry_count"@),
    ) {
        (Some(task_type), Some(table), Some(older_than_days), Some(retry_count)) => Some(
            CleanupView { task_type, table, older_than_days, retry_count },
        ),
        _ => None,
    }
}

/// A cleanup task that was written is read back as it was.
pub proof fn cleanups_are_read_back(t: CleanupView)
    ensures
        json::readable(cleanup_members(t)),
        cleanup_in(json::members_map(cleanup_members(t))) == Some(t),
{
    lemma_type_is_no_private_key();
    reveal_strlit("type");
    reveal_strlit("table");
    reveal_strlit("older_than_days");
    reveal_strlit("retry_count");
    let m = cleanup_members(t);
    assert("type"@[1] == 'y' && "table"@[1] == 'a');
    assert("type"@[0] == 't' && "table"@[0] == 't' && "older_than_days"@[0] == 'o');
    assert("retry_count"@[0] == 'r');
    reveal_with_fuel(json::members_map, 5);
    let m3 = m.drop_last();
    let m2 = m3.drop_last();
    let m1 = m2.drop_last();
    assert(m1.drop_last().len() == 0);
    assert(m1.last() == m[0] && m2.last() == m[1] && m3.last() == m[2] && m.last() == m[3]);
}

impl DataCleanupTask {
    pub fn new(table: String, older_than_days: i64) -> (r: DataCleanupTask)
        ensures
            r@ == (CleanupView {
                task_type: "data_cleanup"@,
                table: table@,
                older_than_days,
                retry_count: 0,
            }),
    {
        DataCleanupTask {
            task_type: "data_cleanup".to_owned(),
            table,
            older_than_days,
            retry_count: 0,
        }
    }

    /// The task as a JSON object.
    pub fn to_json(&self) -> (r: String)
        ensures
            r@ == json::object_text(cleanup_members(self@)),
    {
        let writer = ObjectWriter::new().member(
            "type",
            json::text_scalar(self.task_type.as_str()),
        ).member("table", json::text_scalar(self.table.as_str())).member(
            "older_than_days",
            Scalar::Signed(self.older_than_days),
        ).member("retry_count", Scalar::Unsigned(self.retry_count as u64));
        proof {
            assert(writer.members() =~= cleanup_members(self@));
        }
        writer.finish()
    }

    fn from_document(v: &serde_json::Value) -> (r: Option<DataCleanupTask>)
        ensures
            match r {
                Some(t) => cleanup_in(json::json_view(*v).fields()) == Some(t@),
                None => cleanup_in(json::json_view(*v).fields()) is None,
            },
    {
        match (
            read_text_at(v, "type"),
            read_text_at(v, "table"),
            json::integer_of(json::field_value(v, "older_than_days")),
            read_count_at(v, "retry_count"),
        ) {
            (Some(task_type), Some(table), Some(older_than_days), Some(retry_count)) => Some(
                DataCleanupTask { task_type, table, older_than_days, retry_count },
            ),
            _ => None,
        }
    }
}

impl Task for DataCleanupTask {
    open spec fn retries(&self) -> u32 {
        self.retry_count
    }

    fn retry_count(&self) -> u32 {
        self.retry_count
    }

    fn max_retries(&self) -> u32 {
        3
    }
}

// ---------------------------------------------------------------------------------------------
// What a queued task asks for
// ---------------------------------------------------------------------------------------------

/// What is to be done for a task that was taken from the queue.
#[derive(Debug)]
pub enum TaskWork {
    Email(EmailTask),
    /// A health check, with the time at which it was queued.
    HealthCheck(String),
    Notification(NotificationTask),
    DataCleanup(DataCleanupTask),
    /// The task is of a known kind but does not hold what the kind needs. It is dropped.
    Unreadable,
    /// The task is of an unknown kind, which is named.
    Unknown(String),
    /// The task does not say of what kind it is.
    Untyped,
}

/// The contents of what is to be done for a task.
pub enum WorkView {
    Email(EmailView),
    HealthCheck(Seq<char>),
    Notification(NotificationView),
    DataCleanup(CleanupView),
    Unreadable,
    Unknown(Seq<char>),
    Untyped,
}

impl View for TaskWork {
    type V = WorkView;

    open spec fn view(&self) -> WorkView {
        match self {
            TaskWork::Email(t) => WorkView::Email(t@),
            TaskWork::HealthCheck(s) => WorkView::HealthCheck(s@),
            TaskWork::Notification(t) => WorkView::Notification(t@),
            TaskWork::DataCleanup(t) => WorkView::DataCleanup(t@),
            TaskWork::Unreadable => WorkView::Unreadable,
            TaskWork::Unknown(s) => WorkView::Unknown(s@),
            TaskWork::Untyped => WorkView::Untyped,
        }
    }
}

/// What is to be done for a task that holds these fields.
pub open spec fn work_for(fields: Map<Seq<char>, JsonField>) -> WorkView {
    match text_at(fields, "type"@) {
        None => WorkView::Untyped,
        Some(kind) => if kind == "email"@ {
            match email_in(fields) {
                Some(t) => WorkView::Email(t),
                None => WorkView::Unreadable,
            }
        } else if kind == "health_check"@ {
            match text_at(fields, "timestamp"@) {
                Some(time) => WorkView::HealthCheck(time),
                None => WorkView::HealthCheck("unknown"@),
            }
        } else if kind == "notification"@ {
            match notification_in(fields) {
                Some(t) => WorkView::Notification(t),
                None => WorkView::Unreadable,
            }
        } else if kind == "data_cleanup"@ {
            match cleanup_in(fields) {
                Some(t) => WorkView::DataCleanup(t),
                None => WorkView::Unreadable,
            }
        } else {
            WorkView::Unknown(kind)
        },
    }
}

fn work_of(v: &serde_json::Value) -> (r: TaskWork)
    ensures
        r@ == work_for(json::json_view(*v).fields()),
        forall|made: NotificationView|
            made.task_type == "notification"@ && json::json_view(*v).fields()
                == #[trigger] json::members_map(notification_members(made)) ==> r@
                == WorkView::Notification(made),
{
    proof {
        assert forall|made: NotificationView|
            json::json_view(*v).fields() == #[trigger] json::members_map(
                notification_members(made),
            ) implies text_at(json::json_view(*v).fields(), "type"@) == Some(made.task_type) by {
            lemma_notification_members(made);
        }
        lemma_kinds_differ();
    }
    let kind = match read_text_at(v, "type") {
        Some(kind) => kind,
        None => return TaskWork::Untyped,
    };
    if text::same(kind.as_str(), "email") {
        match EmailTask::from_document(v) {
            Some(t) => TaskWork::Email(t),
            None => TaskWork::Unreadable,
        }
    } else if text::same(kind.as_str(), "health_check") {
        match read_text_at(v, "timestamp") {
            Some(time) => TaskWork::HealthCheck(time),
            None => TaskWork::HealthCheck("unknown".to_owned()),
        }
    } else if text::same(kind.as_str(), "notification") {
        match NotificationTask::from_document(v) {
            Some(t) => TaskWork::Notification(t),
            None => TaskWork::Unreadable,
        }
    } else if text::same(kind.as_str(), "data_cleanup") {
        match DataCleanupTask::from_document(v) {
            Some(t) => TaskWork::DataCleanup(t),
            None => TaskWork::Unreadable,
        }
    } else {
        TaskWork::Unknown(kind)
    }
}

proof fn lemma_kinds_differ()
    ensures
        "email"@ != "notification"@,
        "health_check"@ != "notification"@,
        "email"@ != "data_cleanup"@,
        "health_check"@ != "data_cleanup"@,
        "notification"@ != "data_cleanup"@,
{
    reveal_strlit("email");
    reveal_strlit("health_check");
    reveal_strlit("notification");
    reveal_strlit("data_cleanup");
    assert("email"@[0] == 'e' && "health_check"@[0] == 'h');
    assert("notification"@[0] == 'n' && "data_cleanup"@[0] == 'd');
}

/// Whether an outcome is right for a task in JSON: what the task asks for, or why the text is not
/// JSON. A task of one of the known kinds that was written is read back as it was.
pub open spec fn task_told(task_json: Seq<char>, r: Result<TaskWork, String>) -> bool {
    &&& match json::json_read(task_json) {
        Ok(document) => r is Ok && r->Ok_0@ == work_for(document.fields()),
        Err(reason) => r is Err && r->Err_0@ == reason,
    }
    &&& forall|made: EmailView|
        made.task_type == "email"@ && task_json == #[trigger] json::object_text(email_members(made))
            ==> r is Ok && r->Ok_0@ == WorkView::Email(made)
    &&& forall|made: NotificationView|
        made.task_type == "notification"@ && task_json == #[trigger] json::object_text(
            notification_members(made),
        ) ==> r is Ok && r->Ok_0@ == WorkView::Notification(made)
    &&& forall|made: CleanupView|
        made.task_type == "data_cleanup"@ && task_json == #[trigger] json::object_text(
            cleanup_members(made),
        ) ==> r is Ok && r->Ok_0@ == WorkView::DataCleanup(made)
    &&& forall|time: Seq<char>|
        task_json == #[trigger] json::object_text(health_check_members(time)) ==> r is Ok
            && r->Ok_0@ == WorkView::HealthCheck(time)
}

fn tell_task(task_json: &str) -> (r: Result<TaskWork, String>)
    ensures
        task_told(task_json@, r),
{
    let document = json::parse(task_json);
    proof {
        lemma_kinds_differ();
        let read = json::json_read(task_json@);
        assert forall|made: EmailView|
            task_json@ == #[trigger] json::object_text(email_members(made)) implies read is Ok
            && email_in(read->Ok_0.fields()) == Some(made) by {
            emails_are_read_back(made);
        }
        assert forall|made: NotificationView|
            task_json@ == #[trigger] json::object_text(notification_members(made)) implies read
            is Ok && read->Ok_0.fields() == json::members_map(notification_members(made)) by {
            lemma_notification_members(made);
        }
        assert forall|made: CleanupView|
            task_json@ == #[trigger] json::object_text(cleanup_members(made)) implies read is Ok
            && cleanup_in(read->Ok_0.fields()) == Some(made) by {
            cleanups_are_read_back(made);
        }
        assert forall|time: Seq<char>|
            task_json@ == #[trigger] json::object_text(health_check_members(time)) implies read
            is Ok && work_for(read->Ok_0.fields()) == WorkView::HealthCheck(time) by {
            health_checks_are_read_back(time);
        }
    }
    match document {
        Ok(v) => Ok(work_of(&v)),
        Err(reason) => Err(reason),
    }
}

// ---------------------------------------------------------------------------------------------
// The runner
// ---------------------------------------------------------------------------------------------

/// Queues tasks in a store, where there is a connection to one.
pub struct TaskRunner<C> {
    connection: Option<C>,
    queue_name: String,
    max_retries: u32,
    workers: usize,
}

/// How many tasks are in which queue.
#[derive(Debug, Clone, Copy, PartialEq, Eq, Structural)]
pub struct QueueStats {
    pub pending: usize,
    pub delayed: usize,
    pub dead: usize,
}

impl Default for QueueStats {
    fn default() -> (r: QueueStats)
        ensures
            r == (QueueStats { pending: 0, delayed: 0, dead: 0 }),
    {
        QueueStats { pending: 0, delayed: 0, dead: 0 }
    }
}

/// What is to be done with the store.
#[derive(Debug)]
pub enum QueueCommand {
    /// Put a task at the left end of a list.
    Push { queue: String, task: String },
    /// Put a task into a sorted set, with the second at which it is due.
    Schedule { queue: String, task: String, due: i64 },
    /// Take a task out of a sorted set.
    Unschedule { queue: String, task: String },
}

/// The contents of a command.
pub enum CommandView {
    Push(Seq<char>, Seq<char>),
    Schedule(Seq<char>, Seq<char>, i64),
    Unschedule(Seq<char>, Seq<char>),
}

impl View for QueueCommand {
    type V = CommandView;

    open spec fn view(&self) -> CommandView {
        match self {
            QueueCommand::Push { queue, task } => CommandView::Push(queue@, task@),
            QueueCommand::Schedule { queue, task, due } => CommandView::Schedule(
                queue@,
                task@,
                *due,
            ),
            QueueCommand::Unschedule { queue, task } => CommandView::Unschedule(queue@, task@),
        }
    }
}

/// What becomes of a task that is handed in.
#[derive(Debug)]
pub enum Enqueued {
    /// The task is to be queued.
    Queue(QueueCommand),
    /// There is no store: the task is to be done at once.
    RunNow(String),
}

/// What becomes of a task that failed.
#[derive(Debug)]
pub enum FailedTask {
    /// The task is to be tried again after so many seconds.
    Retry { task: String, delay: u64 },
    /// The task has been tried often enough.
    GiveUp { task: String },
}

/// The number that the bits of another stand for when they are taken to have a sign.
pub open spec fn signed(n: u64) -> int {
    if n <= i64::MAX {
        n as int
    } else {
        n - 0x1_0000_0000_0000_0000
    }
}

/// The list of the tasks that are to be done.
pub open spec fn task_queue() -> Seq<char> {
    "lime:tasks"@
}

/// The sorted set of the tasks that are to be done later.
pub open spec fn delayed_queue() -> Seq<char> {
    task_queue() + ":delayed"@
}

/// The list of the tasks that have failed too often.
pub open spec fn dead_queue() -> Seq<char> {
    task_queue() + ":dead"@
}

/// How often a task has been tried again, as it says itself. What does not fit in 32 bits is cut
/// off.
pub open spec fn retries_of(fields: Map<Seq<char>, JsonField>) -> nat {
    match json::lookup(fields, "retry_count"@) {
        Some(JsonField::Unsigned(n)) => (n % 0x1_0000_0000) as nat,
        _ => 0,
    }
}

/// A task that is to be tried again: it says how often it has been, why it failed and when.
pub open spec fn retried(
    fields: Map<Seq<char>, JsonField>,
    error: Seq<char>,
    time: Seq<char>,
) -> Map<Seq<char>, JsonField> {
    fields.insert("retry_count"@, JsonField::Unsigned((retries_of(fields) + 1) as u64)).insert(
        "last_error"@,
        JsonField::Text(error),
    ).insert("retry_at"@, JsonField::Text(time))
}

/// A task that is to be tried again, as a document: an object says so, and anything else stays as
/// it is.
pub open spec fn retried_document(
    document: JsonDocument,
    error: Seq<char>,
    time: Seq<char>,
) -> JsonDocument {
    match document {
        JsonDocument::Object(fields) => JsonDocument::Object(retried(fields, error, time)),
        JsonDocument::Other(text) => JsonDocument::Other(text),
    }
}

/// Whether a text is what is written for a document. Where the document is flat, it can be read in
/// the text again.
pub open spec fn is_written(document: JsonDocument, text: Seq<char>) -> bool {
    &&& text == json::written(document)
    &&& document.is_flat() ==> json::json_read(text) == Ok::<_, Seq<char>>(document)
}

impl<C> TaskRunner<C> {
    #[verifier::type_invariant]
    spec fn is_set_up(self) -> bool {
        &&& self.queue_name@ == task_queue()
        &&& self.max_retries == 3
        &&& self.workers == 4
    }

    /// The connection to the store, if there is one.
    pub closed spec fn spec_connection(&self) -> Option<C> {
        self.connection
    }

    /// The address of the store to connect to, if one is configured.
    pub fn store_url(config: &Config) -> (r: Option<String>)
        ensures
            match r {
                Some(url) => config.redis is Some && url@ == config.redis->0.url@,
                None => config.redis is None,
            },
    {
        match &config.redis {
            Some(redis) => Some(redis.url.clone()),
            None => None,
        }
    }

    /// A runner with the connection that was made to the configured store, if one is configured and
    /// the connection could be made. Without a connection tasks are done at once.
    pub fn new(config: &Config, connected: Result<C, String>) -> (r: TaskRunner<C>)
        ensures
            r.spec_connection() == match (config.redis, connected) {
                (Some(_), Ok(connection)) => Some(connection),
                _ => None,
            },
    {
        let connection = match (&config.redis, connected) {
            (Some(_), Ok(connection)) => Some(connection),
            _ => None,
        };
        TaskRunner { connection, queue_name: "lime:tasks".to_owned(), max_retries: 3, workers: 4 }
    }

    /// The connection to the store.
    pub fn connection(&self) -> (r: Option<&C>)
        ensures
            match r {
                Some(connection) => self.spec_connection() == Some(*connection),
                None => self.spec_connection() is None,
            },
    {
        self.connection.as_ref()
    }

    /// The list of the tasks that are to be done.
    pub fn queue_name(&self) -> (r: &str)
        ensures
            r@ == task_queue(),
    {
        proof {
            use_type_invariant(self);
        }
        self.queue_name.as_str()
    }

    /// The sorted set of the tasks that are to be done later.
    pub fn delayed_queue_name(&self) -> (r: String)
        ensures
            r@ == delayed_queue(),
    {
        proof {
            use_type_invariant(self);
        }
        text::concat(self.queue_name.as_str(), ":delayed")
    }

    /// The list of the tasks that have failed too often.
    pub fn dead_queue_name(&self) -> (r: String)
        ensures
            r@ == dead_queue(),
    {
        proof {
            use_type_invariant(self);
        }
        text::concat(self.queue_name.as_str(), ":dead")
    }

    /// Hands in a task in JSON: it is queued where there is a store, and else done at once.
    pub fn enqueue(&self, task: String) -> (r: Enqueued)
        ensures
            match r {
                Enqueued::Queue(command) => self.spec_connection() is Some && command@
                    == CommandView::Push(task_queue(), task@),
                Enqueued::RunNow(now) => self.spec_connection() is None && now@ == task@,
            },
    {
        match &self.connection {
            Some(_) => Enqueued::Queue(
                QueueCommand::Push { queue: self.queue_name().to_owned(), task },
            ),
            None => Enqueued::RunNow(task),
        }
    }

    /// Hands in a task that is to be done later, if there is a store. The current second and the
    /// delay, whose bits are taken to have a sign, make the second at which the task is due.
    pub fn schedule(&self, task: String, delay_seconds: u64, now: i64) -> (r: Option<QueueCommand>)
        requires
            i64::MIN <= now + signed(delay_seconds) <= i64::MAX,
        ensures
            match r {
                Some(command) => self.spec_connection() is Some && command@
                    == CommandView::Schedule(
                    delayed_queue(),
                    task@,
                    (now + signed(delay_seconds)) as i64,
                ),
                None => self.spec_connection() is None,
            },
    {
        match &self.connection {
            Some(_) => {
                let delay: i64 = {
                    assert(delay_seconds <= 0x7fff_ffff_ffff_ffff ==> delay_seconds as i64
                        == delay_seconds) by (bit_vector);
                    assert(delay_seconds > 0x7fff_ffff_ffff_ffff ==> delay_seconds as i64
                        == delay_seconds - 0x1_0000_0000_0000_0000) by (bit_vector);
                    #[verifier::truncate]
                    (delay_seconds as i64)
                };
                let due: i64 = now + delay;
                Some(QueueCommand::Schedule { queue: self.delayed_queue_name(), task, due })
            },
            None => None,
        }
    }

    /// Tells what is to be done for a task in JSON. It fails only where the text is not JSON.
    pub fn execute_task_json(&self, task_json: &str) -> (r: Result<TaskWork, String>)
        ensures
            task_told(task_json@, r),
    {
        tell_task(task_json)
    }

    /// Tells what is to be done after a look into the queue: the task that was taken from it, if
    /// there was one.
    pub fn process_next_task(&self, taken: Option<&str>) -> (r: Result<Option<TaskWork>, String>)
        ensures
            match taken {
                None => r matches Ok(None),
                Some(task_json) => match r {
                    Ok(None) => false,
                    Ok(Some(work)) => task_told(task_json@, Ok(work)),
                    Err(reason) => task_told(task_json@, Err(reason)),
                },
            },
    {
        match taken {
            None => Ok(None),
            Some(task_json) => match self.execute_task_json(task_json) {
                Ok(work) => Ok(Some(work)),
                Err(reason) => Err(reason),
            },
        }
    }

    /// Decides what becomes of a task that failed. It is tried again three times, each time after
    /// twice as long a wait, and then given up. It is handed on as it is written anew. It fails only
    /// where the task is not JSON.
    pub fn handle_failed_task(&self, task_json: &str, error: &str, now: Timestamp) -> (r: Result<
        FailedTask,
        String,
    >)
        ensures
            match json::json_read(task_json@) {
                Err(reason) => r is Err && r->Err_0@ == reason,
                Ok(document) => r is Ok && match r->Ok_0 {
                    FailedTask::Retry { task, delay } => {
                        &&& retries_of(document.fields()) < 3
                        &&& delay == vstd::arithmetic::power2::pow2(retries_of(document.fields()))
                        &&& is_written(
                            retried_document(document, error@, now.spec_text(false)),
                            task@,
                        )
                    },
                    FailedTask::GiveUp { task } => {
                        &&& retries_of(document.fields()) >= 3
                        &&& is_written(document, task@)
                    },
                },
            },
    {
        proof {
            use_type_invariant(self);
        }
        let mut document = match json::parse(task_json) {
            Ok(v) => v,
            Err(reason) => return Err(reason),
        };
        let ghost before = document;
        let retries: u32 = match json::field_value(&document, "retry_count") {
            FieldValue::Unsigned(n) => {
                assert(n as u32 == n % 0x1_0000_0000) by (bit_vector);
                #[verifier::truncate]
                (n as u32)
            },
            _ => 0,
        };
        assert(retries == retries_of(json::json_view(before).fields()));
        if retries >= self.max_retries {
            return Ok(FailedTask::GiveUp { task: json::document_text(&document) });
        }
        json::put(&mut document, "retry_count", Scalar::Unsigned(retries as u64 + 1));
        json::put(&mut document, "last_error", json::text_scalar(error));
        let time = now.text(false);
        json::put(&mut document, "retry_at", Scalar::Text(time));
        let task = json::document_text(&document);
        let delay = power_of_two(retries);
        proof {
            assert(json::json_view(document) == retried_document(
                json::json_view(before),
                error@,
                now.spec_text(false),
            ));
        }
        Ok(FailedTask::Retry { task, delay })
    }

    /// Puts a task that has failed too often where such tasks are kept, if there is a store.
    pub fn move_to_dead_letter_queue(&self, task: String) -> (r: Option<QueueCommand>)
        ensures
            match r {
                Some(command) => self.spec_connection() is Some && command@ == CommandView::Push(
                    dead_queue(),
                    task@,
                ),
                None => self.spec_connection() is None,
            },
    {
        match &self.connection {
            Some(_) => Some(QueueCommand::Push { queue: self.dead_queue_name(), task }),
            None => None,
        }
    }

    /// Moves the tasks that are due back to where tasks are taken from, if there is a store: first
    /// all of them out of the sorted set, then all of them into the list, both in their order.
    pub fn process_delayed_tasks(&self, due: &Vec<String>) -> (r: Vec<QueueCommand>)
        ensures
            self.spec_connection() is None ==> r@.len() == 0,
            self.spec_connection() is Some ==> r@.len() == 2 * due@.len(),
            forall|i: int|
                0 <= i < due@.len() && i < r@.len() ==> (#[trigger] r@[i])@ == CommandView::Unschedule(
                    delayed_queue(),
                    due@[i]@,
                ),
            forall|i: int|
                due@.len() <= i < r@.len() ==> (#[trigger] r@[i])@ == CommandView::Push(
                    task_queue(),
                    due@[i - due@.len()]@,
                ),
    {
        let mut commands: Vec<QueueCommand> = Vec::new();
        match &self.connection {
            Some(_) => {},
            None => return commands,
        }
        let mut i: usize = 0;
        while i < due.len()
            invariant
                i <= due@.len(),
                commands@.len() == i,
                forall|j: int|
                    0 <= j < i ==> (#[trigger] commands@[j])@ == CommandView::Unschedule(
                        delayed_queue(),
                        due@[j]@,
                    ),
            decreases due@.len() - i,
        {
            commands.push(
                QueueCommand::Unschedule {
                    queue: self.delayed_queue_name(),
                    task: due[i].clone(),
                },
            );
            i = i + 1;
        }
        let mut k: usize = 0;
        while k < due.len()
            invariant
                k <= due@.len(),
                commands@.len() == due@.len() + k,
                forall|j: int|
                    0 <= j < due@.len() ==> (#[trigger] commands@[j])@ == CommandView::Unschedule(
                        delayed_queue(),
                        due@[j]@,
                    ),
                forall|j: int|
                    due@.len() <= j < due@.len() + k ==> (#[trigger] commands@[j])@
                        == CommandView::Push(task_queue(), due@[j - due@.len()]@),
            decreases due@.len() - k,
        {
            commands.push(
                QueueCommand::Push { queue: self.queue_name().to_owned(), task: due[k].clone() },
            );
            k = k + 1;
        }
        commands
    }

    /// How many tasks are in which queue, as far as there is a store to count them in.
    pub fn get_queue_stats(&self, counted: QueueStats) -> (r: QueueStats)
        ensures
            r == if self.spec_connection() is Some {
                counted
            } else {
                QueueStats { pending: 0, delayed: 0, dead: 0 }
            },
    {
        match &self.connection {
            Some(_) => counted,
            None => QueueStats::default(),
        }
    }

    /// How many workers take tasks from the queue: four, where there is a store.
    pub fn start_workers(&self) -> (r: usize)
        ensures
            r == if self.spec_connection() is Some {
                4int
            } else {
                0
            },
    {
        proof {
            use_type_invariant(self);
        }
        match &self.connection {
            Some(_) => self.workers,
            None => 0,
        }
    }
}

/// How long a worker waits before it looks for the next task, in milliseconds: not at all after a
/// task, a moment where there was none, and longer after an error or without a store.
pub fn worker_pause(looked: Option<Result<bool, String>>) -> (r: u64)
    ensures
        r == match looked {
            Some(Ok(true)) => 0int,
            Some(Ok(false)) => 100,
            Some(Err(_)) => 1000,
            None => 5000,
        },
{
    match looked {
        Some(Ok(processed)) => if processed {
            0
        } else {
            100
        },
        Some(Err(_)) => 1000,
        None => 5000,
    }
}

/// How long the one who looks for tasks that are due waits before looking again, in seconds.
pub const DELAYED_TASK_SECONDS: u64 = 10;

/// The members of the JSON object that a health check is written as.
pub open spec fn health_check_members(time: Seq<char>) -> Seq<(Seq<char>, JsonField)> {
    seq![
        ("timestamp"@, JsonField::Text(time)),
        ("type"@, JsonField::Text("health_check"@)),
    ]
}

/// A health check that was written is read back as one of the same time.
pub proof fn health_checks_are_read_back(time: Seq<char>)
    ensures
        json::readable(health_check_members(time)),
        work_for(json::members_map(health_check_members(time))) == WorkView::HealthCheck(time),
{
    reveal_strlit("timestamp");
    reveal_strlit("type");
    reveal_strlit("health_check");
    reveal_strlit("email");
    reveal_strlit("$serde_json::private::RawValue");
    let m = health_check_members(time);
    assert("timestamp"@.len() == 9 && "type"@.len() == 4);
    assert("health_check"@.len() == 12 && "email"@.len() == 5);
    reveal_with_fuel(json::members_map, 3);
    let m1 = m.drop_last();
    assert(m1.drop_last().len() == 0);
    assert(m1.last() == m[0] && m.last() == m[1]);
}

/// Hands in a health check.
pub fn health_check_task<C>(runner: &TaskRunner<C>, now: Timestamp) -> (r: Enqueued)
    ensures
        ({
            let task = json::object_text(health_check_members(now.spec_text(false)));
            match r {
                Enqueued::Queue(command) => runner.spec_connection() is Some && command@
                    == CommandView::Push(task_queue(), task),
                Enqueued::RunNow(task_now) => runner.spec_connection() is None && task_now@ == task,
            }
        }),
{
    let time = now.text(false);
    let writer = ObjectWriter::new().member("timestamp", Scalar::Text(time)).member(
        "type",
        json::text_scalar("health_check"),
    );
    proof {
        assert(writer.members() =~= health_check_members(now.spec_text(false)));
    }
    let task = writer.finish();
    runner.enqueue(task)
}

// ---------------------------------------------------------------------------------------------
// What retrying comes to
// ---------------------------------------------------------------------------------------------

/// A task that is tried again says that it was tried once more, and otherwise is the same but for
/// its last error and the time of it.
pub proof fn a_retry_counts_one_more(
    fields: Map<Seq<char>, JsonField>,
    error: Seq<char>,
    time: Seq<char>,
)
    requires
        retries_of(fields) < 3,
    ensures
        retries_of(retried(fields, error, time)) == retries_of(fields) + 1,
        forall|key: Seq<char>|
            key != "retry_count"@ && key != "last_error"@ && key != "retry_at"@
                ==> json::lookup(retried(fields, error, time), key) == #[trigger] json::lookup(
                fields,
                key,
            ),
{
    reveal_strlit("retry_count");
    reveal_strlit("last_error");
    reveal_strlit("retry_at");
    assert("retry_count"@.len() == 11 && "last_error"@.len() == 10 && "retry_at"@.len() == 8);
}

/// A task that is tried again asks for the same as before, and says that it was tried once more. Only
/// one that could not be read may ask for something then, as its count of retries is replaced.
pub proof fn a_retry_asks_for_the_same(
    fields: Map<Seq<char>, JsonField>,
    error: Seq<char>,
    time: Seq<char>,
)
    requires
        retries_of(fields) < 3,
        work_for(fields) !is Unreadable,
    ensures
        work_for(retried(fields, error, time)) == match work_for(fields) {
            WorkView::Email(t) => WorkView::Email(
                EmailView { retry_count: (t.retry_count + 1) as u32, ..t },
            ),
            WorkView::Notification(t) => WorkView::Notification(
                NotificationView { retry_count: (t.retry_count + 1) as u32, ..t },
            ),
            WorkView::DataCleanup(t) => WorkView::DataCleanup(
                CleanupView { retry_count: (t.retry_count + 1) as u32, ..t },
            ),
            other => other,
        },
{
    let after = retried(fields, error, time);
    a_retry_counts_one_more(fields, error, time);
    reveal_strlit("retry_count");
    reveal_strlit("last_error");
    reveal_strlit("retry_at");
    reveal_strlit("type");
    reveal_strlit("to");
    reveal_strlit("subject");
    reveal_strlit("body");
    reveal_strlit("attempts");
    reveal_strlit("user_id");
    reveal_strlit("message");
    reveal_strlit("channel");
    reveal_strlit("table");
    reveal_strlit("older_than_days");
    reveal_strlit("timestamp");
    assert("retry_count"@.len() == 11 && "last_error"@.len() == 10 && "retry_at"@.len() == 8);
    assert("attempts"@[0] == 'a' && "retry_at"@[0] == 'r');
    assert(json::lookup(after, "type"@) == json::lookup(fields, "type"@));
    assert(json::lookup(after, "to"@) == json::lookup(fields, "to"@));
    assert(json::lookup(after, "subject"@) == json::lookup(fields, "subject"@));
    assert(json::lookup(after, "body"@) == json::lookup(fields, "body"@));
    assert(json::lookup(after, "attempts"@) == json::lookup(fields, "attempts"@));
    assert(json::lookup(after, "user_id"@) == json::lookup(fields, "user_id"@));
    assert(json::lookup(after, "message"@) == json::lookup(fields, "message"@));
    assert(json::lookup(after, "channel"@) == json::lookup(fields, "channel"@));
    assert(json::lookup(after, "table"@) == json::lookup(fields, "table"@));
    assert(json::lookup(after, "older_than_days"@) == json::lookup(fields, "older_than_days"@));
    assert(json::lookup(after, "timestamp"@) == json::lookup(fields, "timestamp"@));
}

/// A flat task that is tried again is flat, so it is read again as it was handed on.
pub proof fn a_retry_of_a_flat_task_is_flat(
    document: JsonDocument,
    error: Seq<char>,
    time: Seq<char>,
)
    requires
        document.is_flat(),
    ensures
        retried_document(document, error, time).is_flat(),
{
    reveal_strlit("retry_count");
    reveal_strlit("last_error");
    reveal_strlit("retry_at");
    reveal_strlit("$serde_json::private::RawValue");
    assert("retry_count"@.len() == 11 && "last_error"@.len() == 10 && "retry_at"@.len() == 8);
}

/// The fields of a task that failed so often, one time after the other.
pub open spec fn failed_times(
    fields: Map<Seq<char>, JsonField>,
    failures: Seq<(Seq<char>, Seq<char>)>,
) -> Map<Seq<char>, JsonField>
    decreases failures.len(),
{
    if failures.len() == 0 {
        fields
    } else {
        retried(failed_times(fields, failures.drop_last()), failures.last().0, failures.last().1)
    }
}

/// A fresh task that fails time and again is tried again three times, after one, two and four
/// seconds, and then given up.
pub proof fn a_failing_task_is_given_up(
    fields: Map<Seq<char>, JsonField>,
    failures: Seq<(Seq<char>, Seq<char>)>,
)
    requires
        retries_of(fields) == 0,
        failures.len() <= 3,
    ensures
        retries_of(failed_times(fields, failures)) == failures.len(),
        failures.len() == 0 ==> vstd::arithmetic::power2::pow2(
            retries_of(failed_times(fields, failures)),
        ) == 1,
        failures.len() == 1 ==> vstd::arithmetic::power2::pow2(
            retries_of(failed_times(fields, failures)),
        ) == 2,
        failures.len() == 2 ==> vstd::arithmetic::power2::pow2(
            retries_of(failed_times(fields, failures)),
        ) == 4,
        failures.len() == 3 ==> retries_of(failed_times(fields, failures)) >= 3,
    decreases failures.len(),
{
    vstd::arithmetic::power2::lemma2_to64();
    if failures.len() > 0 {
        let before = failures.drop_last();
        a_failing_task_is_given_up(fields, before);
        a_retry_counts_one_more(
            failed_times(fields, before),
            failures.last().0,
            failures.last().1,
        );
    }
}

/// A notification goes out by push, text message or email where its channel has that name, and by no
/// channel that is known where it has another.
pub proof fn channels_go_by_one_name(name: Seq<char>)
    ensures
        channel_named(name) == Channel::Push <==> name == seq!['p', 'u', 's', 'h'],
        channel_named(name) == Channel::Sms <==> name == seq!['s', 'm', 's'],
        channel_named(name) == Channel::Email <==> name == seq!['e', 'm', 'a', 'i', 'l'],
{
    reveal_strlit("push");
    reveal_strlit("sms");
    reveal_strlit("email");
    assert("push"@ =~= seq!['p', 'u', 's', 'h']);
    assert("sms"@ =~= seq!['s', 'm', 's']);
    assert("email"@ =~= seq!['e', 'm', 'a', 'i', 'l']);
    assert("push"@.len() == 4 && "sms"@.len() == 3 && "email"@.len() == 5);
}

/// An email is read exactly where its texts are there and its counters are, if at all, numbers of 32
/// bits; a counter that is not there counts from zero.
pub proof fn what_makes_an_email(fields: Map<Seq<char>, JsonField>, t: EmailView)
    ensures
        email_in(fields) == Some(t) <==> {
            &&& json::lookup(fields, "type"@) == Some(JsonField::Text(t.task_type))
            &&& json::lookup(fields, "to"@) == Some(JsonField::Text(t.to))
            &&& json::lookup(fields, "subject"@) == Some(JsonField::Text(t.subject))
            &&& json::lookup(fields, "body"@) == Some(JsonField::Text(t.body))
            &&& json::lookup(fields, "attempts"@) == Some(JsonField::Unsigned(t.attempts as u64))
                || (json::lookup(fields, "attempts"@) is None && t.attempts == 0)
            &&& json::lookup(fields, "retry_count"@) == Some(
                JsonField::Unsigned(t.retry_count as u64),
            ) || (json::lookup(fields, "retry_count"@) is None && t.retry_count == 0)
        },
{
}

/// A notification is read exactly where its texts are there, its user is named by a readable
/// identifier, and its counter is, if at all, a number of 32 bits.
pub proof fn what_makes_a_notification(
    fields: Map<Seq<char>, JsonField>,
    t: NotificationView,
    id: Seq<char>,
)
    ensures
        json::lookup(fields, "user_id"@) == Some(JsonField::Text(id)) ==> (notification_in(fields)
            == Some(t) <==> {
            &&& ids::uuid_parsed(id) == Some(t.user_id)
            &&& json::lookup(fields, "type"@) == Some(JsonField::Text(t.task_type))
            &&& json::lookup(fields, "message"@) == Some(JsonField::Text(t.message))
            &&& json::lookup(fields, "channel"@) == Some(JsonField::Text(t.channel))
            &&& json::lookup(fields, "retry_count"@) == Some(
                JsonField::Unsigned(t.retry_count as u64),
            ) || (json::lookup(fields, "retry_count"@) is None && t.retry_count == 0)
        }),
        notification_in(fields) is Some ==> json::lookup(fields, "user_id"@) matches Some(
            JsonField::Text(_),
        ),
{
}

/// A cleanup is read exactly where its texts are there, its age is an integer of 64 bits with a sign,
/// and its counter is, if at all, a number of 32 bits.
pub proof fn what_makes_a_cleanup(fields: Map<Seq<char>, JsonField>, t: CleanupView)
    ensures
        cleanup_in(fields) == Some(t) <==> {
            &&& json::lookup(fields, "type"@) == Some(JsonField::Text(t.task_type))
            &&& json::lookup(fields, "table"@) == Some(JsonField::Text(t.table))
            &&& json::lookup(fields, "older_than_days"@) == Some(
                JsonField::Negative(t.older_than_days),
            ) || (t.older_than_days >= 0 && json::lookup(fields, "older_than_days"@) == Some(
                JsonField::Unsigned(t.older_than_days as u64),
            ))
            &&& json::lookup(fields, "retry_count"@) == Some(
                JsonField::Unsigned(t.retry_count as u64),
            ) || (json::lookup(fields, "retry_count"@) is None && t.retry_count == 0)
        },
{
}

/// What a queued task asks for is told by its type. An email, a notification or a cleanup that cannot
/// be read is not carried out, a type that is not known is named, and so is the time of a health check
/// where it says one.
pub proof fn the_type_tells_the_work(fields: Map<Seq<char>, JsonField>, kind: Seq<char>)
    ensures
        work_for(fields) is Untyped <==> !(json::lookup(fields, "type"@) matches Some(
            JsonField::Text(_),
        )),
        json::lookup(fields, "type"@) == Some(JsonField::Text(kind)) ==> {
            &&& work_for(fields) is Unknown <==> kind != "email"@ && kind != "health_check"@ && kind
                != "notification"@ && kind != "data_cleanup"@
            &&& work_for(fields) is Unknown ==> work_for(fields) == WorkView::Unknown(kind)
            &&& kind == "email"@ ==> match email_in(fields) {
                Some(t) => work_for(fields) == WorkView::Email(t),
                None => work_for(fields) is Unreadable,
            }
            &&& kind == "notification"@ ==> match notification_in(fields) {
                Some(t) => work_for(fields) == WorkView::Notification(t),
                None => work_for(fields) is Unreadable,
            }
            &&& kind == "data_cleanup"@ ==> match cleanup_in(fields) {
                Some(t) => work_for(fields) == WorkView::DataCleanup(t),
                None => work_for(fields) is Unreadable,
            }
            &&& kind == "health_check"@ ==> match json::lookup(fields, "timestamp"@) {
                Some(JsonField::Text(time)) => work_for(fields) == WorkView::HealthCheck(time),
                _ => work_for(fields) == WorkView::HealthCheck("unknown"@),
            }
        },
{
    lemma_kinds_differ();
    reveal_strlit("email");
    reveal_strlit("health_check");
    assert("email"@.len() == 5 && "health_check"@.len() == 12);
}

/// A delay is counted in seconds as it is where it fits into 64 bits with a sign; a longer one wraps
/// around.
pub proof fn delays_wrap_around(n: u64)
    ensures
        n < 0x8000_0000_0000_0000 ==> signed(n) == n,
        -0x8000_0000_0000_0000 <= signed(n) < 0x8000_0000_0000_0000,
        (n - signed(n)) % 0x1_0000_0000_0000_0000 == 0,
{
}

/// A task says how often it was retried by a number; the lower 32 bits of it count. One that says
/// nothing of the kind was not retried.
pub proof fn how_often_a_task_was_retried(fields: Map<Seq<char>, JsonField>, n: u64)
    ensures
        json::lookup(fields, "retry_count"@) == Some(JsonField::Unsigned(n)) ==> {
            &&& n < 0x1_0000_0000 ==> retries_of(fields) == n
            &&& 0 <= retries_of(fields) < 0x1_0000_0000
            &&& (n - retries_of(fields)) % 0x1_0000_0000 == 0
        },
        !(json::lookup(fields, "retry_count"@) matches Some(JsonField::Unsigned(_))) ==> retries_of(
            fields,
        ) == 0,
{
}

/// A task that is retried says why it failed and when, and counts the retry. Anything but an object
/// stays as it is.
pub proof fn a_retry_says_why(
    fields: Map<Seq<char>, JsonField>,
    error: Seq<char>,
    time: Seq<char>,
    text: Seq<char>,
)
    requires
        retries_of(fields) < 3,
    ensures
        ({
            let after = retried_document(JsonDocument::Object(fields), error, time).fields();
            &&& json::lookup(after, "retry_count"@) == Some(
                JsonField::Unsigned((retries_of(fields) + 1) as u64),
            )
            &&& json::lookup(after, "last_error"@) == Some(JsonField::Text(error))
            &&& json::lookup(after, "retry_at"@) == Some(JsonField::Text(time))
            &&& forall|key: Seq<char>|
                key != "retry_count"@ && key != "last_error"@ && key != "retry_at"@
                    ==> json::lookup(after, key) == #[trigger] json::lookup(fields, key)
        }),
        retried_document(JsonDocument::Other(text), error, time) == JsonDocument::Other(text),
{
    a_retry_counts_one_more(fields, error, time);
    reveal_strlit("retry_count");
    reveal_strlit("last_error");
    reveal_strlit("retry_at");
    assert("retry_count"@.len() == 11 && "last_error"@.len() == 10 && "retry_at"@.len() == 8);
}

/// Tasks that wait, that were put off and that were given up are kept in three queues.
pub proof fn queues_are_told_apart()
    ensures
        task_queue() == "lime:tasks"@,
        delayed_queue() == "lime:tasks:delayed"@,
        dead_queue() == "lime:tasks:dead"@,
        task_queue() != delayed_queue(),
        task_queue() != dead_queue(),
        delayed_queue() != dead_queue(),
{
    reveal_strlit("lime:tasks");
    reveal_strlit(":delayed");
    reveal_strlit(":dead");
    reveal_strlit("lime:tasks:delayed");
    reveal_strlit("lime:tasks:dead");
    assert(delayed_queue() =~= "lime:tasks:delayed"@);
    assert(dead_queue() =~= "lime:tasks:dead"@);
    assert(task_queue().len() == 10 && delayed_queue().len() == 18 && dead_queue().len() == 15);
}

/// A queued text that is no JSON is refused with the reason, and any other asks for what its fields
/// say. A task that was written as JSON is told as the task that it was.
pub proof fn queued_tasks_are_told(
    task_json: Seq<char>,
    r: Result<TaskWork, String>,
    reason: Seq<char>,
    document: JsonDocument,
    email: EmailView,
    notification: NotificationView,
    cleanup: CleanupView,
    time: Seq<char>,
)
    requires
        task_told(task_json, r),
    ensures
        json::json_read(task_json) == Err::<JsonDocument, _>(reason) ==> r is Err && r->Err_0@
            == reason,
        json::json_read(task_json) == Ok::<_, Seq<char>>(document) ==> r is Ok && r->Ok_0@
            == work_for(document.fields()),
        email.task_type == "email"@ && task_json == json::object_text(email_members(email)) ==> r
            is Ok && r->Ok_0@ == WorkView::Email(email),
        notification.task_type == "notification"@ && task_json == json::object_text(
            notification_members(notification),
        ) ==> r is Ok && r->Ok_0@ == WorkView::Notification(notification),
        cleanup.task_type == "data_cleanup"@ && task_json == json::object_text(
            cleanup_members(cleanup),
        ) ==> r is Ok && r->Ok_0@ == WorkView::DataCleanup(cleanup),
        task_json == json::object_text(health_check_members(time)) ==> r is Ok && r->Ok_0@
            == WorkView::HealthCheck(time),
{
}

/// What is written of a task whose fields are scalars is read as that task again.
pub proof fn flat_tasks_are_read_again(document: JsonDocument, text: Seq<char>)
    requires
        is_written(document, text),
    ensures
        document.is_flat() ==> json::json_read(text) == Ok::<_, Seq<char>>(document),
        document matches JsonDocument::Object(fields) ==> text == json::json_object_text(fields),
        document matches JsonDocument::Other(other) ==> text == other,
{
}

/// A task is written with its type and all that it says, and a new one has not been tried yet.
pub proof fn tasks_are_written_by_name(
    email: EmailView,
    notification: NotificationView,
    cleanup: CleanupView,
)
    ensures
        ({
            let fields = json::members_map(email_members(email));
            &&& json::lookup(fields, "type"@) == Some(JsonField::Text(email.task_type))
            &&& json::lookup(fields, "to"@) == Some(JsonField::Text(email.to))
            &&& json::lookup(fields, "subject"@) == Some(JsonField::Text(email.subject))
            &&& json::lookup(fields, "body"@) == Some(JsonField::Text(email.body))
            &&& email_in(fields) == Some(email)
        }),
        ({
            let fields = json::members_map(notification_members(notification));
            &&& json::lookup(fields, "type"@) == Some(JsonField::Text(notification.task_type))
            &&& json::lookup(fields, "user_id"@) == Some(
                JsonField::Text(ids::uuid_text(notification.user_id)),
            )
            &&& json::lookup(fields, "message"@) == Some(JsonField::Text(notification.message))
            &&& json::lookup(fields, "channel"@) == Some(JsonField::Text(notification.channel))
        }),
        ({
            let fields = json::members_map(cleanup_members(cleanup));
            &&& json::lookup(fields, "type"@) == Some(JsonField::Text(cleanup.task_type))
            &&& json::lookup(fields, "table"@) == Some(JsonField::Text(cleanup.table))
            &&& cleanup_in(fields) == Some(cleanup)
        }),
{
    emails_are_read_back(email);
    what_makes_an_email(json::members_map(email_members(email)), email);
    lemma_notification_members(notification);
    cleanups_are_read_back(cleanup);
    what_makes_a_cleanup(json::members_map(cleanup_members(cleanup)), cleanup);
}

} // verus!
