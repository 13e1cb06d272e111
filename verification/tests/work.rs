use lime::clock::Timestamp;
use lime::config::{Config, RedisConfig};
use lime::tasks::{
    health_check_task, power_of_two, worker_pause, Channel, DataCleanupTask, EmailTask, Enqueued,
    FailedTask, NotificationTask, QueueCommand, QueueStats, Task, TaskRunner, TaskWork,
    DELAYED_TASK_SECONDS,
};

const ID: u128 = 0x0123_4567_89ab_cdef_0123_4567_89ab_cdef;

fn with_store() -> Config {
    Config {
        redis: Some(RedisConfig { url: "redis://store".to_string(), max_connections: 1 }),
        ..Default::default()
    }
}

fn connected() -> TaskRunner<u8> {
    TaskRunner::new(&with_store(), Ok(1))
}

fn alone() -> TaskRunner<u8> {
    TaskRunner::new(&Config::default(), Err("none".to_string()))
}

fn now() -> Timestamp {
    Timestamp::from_unix(1_700_000_000, 0).unwrap()
}

fn fields(text: &str) -> serde_json::Value {
    serde_json::from_str(text).unwrap()
}

#[test]
fn a_runner_needs_a_store_for_its_queue() {
    assert_eq!(TaskRunner::<u8>::store_url(&with_store()), Some("redis://store".to_string()));
    assert_eq!(TaskRunner::<u8>::store_url(&Config::default()), None);
    assert_eq!(connected().connection(), Some(&1));
    assert!(alone().connection().is_none());
    assert!(TaskRunner::<u8>::new(&with_store(), Err("down".to_string())).connection().is_none());
    assert!(TaskRunner::new(&Config::default(), Ok(1)).connection().is_none());
    assert_eq!(connected().start_workers(), 4);
    assert_eq!(alone().start_workers(), 0);
    assert_eq!(connected().queue_name(), "lime:tasks");
    assert_eq!(connected().delayed_queue_name(), "lime:tasks:delayed");
    assert_eq!(connected().dead_queue_name(), "lime:tasks:dead");
}

#[test]
fn tasks_are_queued_or_done_at_once() {
    let queued = connected().enqueue("{}".to_string());
    assert!(matches!(
        queued,
        Enqueued::Queue(QueueCommand::Push { queue, task }) if queue == "lime:tasks" && task == "{}"
    ));
    assert!(matches!(alone().enqueue("{}".to_string()), Enqueued::RunNow(task) if task == "{}"));

    let later = connected().schedule("{}".to_string(), 30, 1_000);
    assert!(matches!(
        later,
        Some(QueueCommand::Schedule { queue, task, due: 1_030 })
            if queue == "lime:tasks:delayed" && task == "{}"
    ));
    assert!(alone().schedule("{}".to_string(), 30, 1_000).is_none());
    let before = connected().schedule("{}".to_string(), u64::MAX - 4, 1_000);
    assert!(matches!(before, Some(QueueCommand::Schedule { due: 995, .. })));

    let dead = connected().move_to_dead_letter_queue("{}".to_string());
    assert!(matches!(dead, Some(QueueCommand::Push { queue, .. }) if queue == "lime:tasks:dead"));
    assert!(alone().move_to_dead_letter_queue("{}".to_string()).is_none());
}

#[test]
fn tasks_that_are_due_are_moved() {
    let due = vec!["a".to_string(), "b".to_string()];
    let commands = connected().process_delayed_tasks(&due);
    let told: Vec<String> = commands
        .iter()
        .map(|c| match c {
            QueueCommand::Unschedule { queue, task } => format!("- {} {}", queue, task),
            QueueCommand::Push { queue, task } => format!("+ {} {}", queue, task),
            QueueCommand::Schedule { .. } => "?".to_string(),
        })
        .collect();
    assert_eq!(
        told,
        vec![
            "- lime:tasks:delayed a",
            "- lime:tasks:delayed b",
            "+ lime:tasks a",
            "+ lime:tasks b"
        ]
    );
    assert!(connected().process_delayed_tasks(&vec![]).is_empty());
    assert!(alone().process_delayed_tasks(&due).is_empty());
}

#[test]
fn queues_are_counted_in_the_store() {
    let counted = QueueStats { pending: 1, delayed: 2, dead: 3 };
    assert_eq!(connected().get_queue_stats(counted), counted);
    assert_eq!(alone().get_queue_stats(counted), QueueStats::default());
    assert_eq!(QueueStats::default(), QueueStats { pending: 0, delayed: 0, dead: 0 });
}

#[test]
fn workers_wait_as_long_as_they_should() {
    assert_eq!(worker_pause(Some(Ok(true))), 0);
    assert_eq!(worker_pause(Some(Ok(false))), 100);
    assert_eq!(worker_pause(Some(Err("e".to_string()))), 1000);
    assert_eq!(worker_pause(None), 5000);
    assert_eq!(DELAYED_TASK_SECONDS, 10);
}

#[test]
fn an_email_is_read_back() {
    let task = EmailTask::new("a@b".to_string(), "s\"".to_string(), "b\n".to_string());
    assert_eq!(
        task.to_json(),
        "{\"type\":\"email\",\"to\":\"a@b\",\"subject\":\"s\\\"\",\"body\":\"b\\n\",\
         \"attempts\":0,\"retry_count\":0}"
    );
    match connected().execute_task_json(&task.to_json()).unwrap() {
        TaskWork::Email(read) => {
            assert_eq!(read.to, "a@b");
            assert_eq!(read.subject, "s\"");
            assert_eq!(read.body, "b\n");
            assert_eq!(read.attempts, 0);
            assert_eq!(read.retry_count, 0);
        }
        other => panic!("{:?}", other),
    }
}

#[test]
fn other_kinds_are_read_back() {
    let task = NotificationTask::new(ID, "hi".to_string(), "sms".to_string());
    assert_eq!(
        task.to_json(),
        "{\"type\":\"notification\",\"user_id\":\"01234567-89ab-cdef-0123-456789abcdef\",\
         \"message\":\"hi\",\"channel\":\"sms\",\"retry_count\":0}"
    );
    match connected().execute_task_json(&task.to_json()).unwrap() {
        TaskWork::Notification(read) => {
            assert_eq!(read.user_id, ID);
            assert_eq!(read.message, "hi");
            assert_eq!(read.channel(), Channel::Sms);
        }
        other => panic!("{:?}", other),
    }
    let task = DataCleanupTask::new("logs".to_string(), -3);
    assert_eq!(
        task.to_json(),
        "{\"type\":\"data_cleanup\",\"table\":\"logs\",\"older_than_days\":-3,\"retry_count\":0}"
    );
    match connected().execute_task_json(&task.to_json()).unwrap() {
        TaskWork::DataCleanup(read) => {
            assert_eq!(read.table, "logs");
            assert_eq!(read.older_than_days, -3);
        }
        other => panic!("{:?}", other),
    }
}

#[test]
fn channels_have_names() {
    let channel = |name: &str| NotificationTask::new(1, String::new(), name.to_string()).channel();
    assert_eq!(channel("push"), Channel::Push);
    assert_eq!(channel("sms"), Channel::Sms);
    assert_eq!(channel("email"), Channel::Email);
    assert_eq!(channel("pigeon"), Channel::Unknown);
}

#[test]
fn tasks_are_told_by_their_type() {
    let told = |text: &str| connected().execute_task_json(text);
    assert!(matches!(
        told("{\"type\":\"health_check\",\"timestamp\":\"noon\"}"),
        Ok(TaskWork::HealthCheck(time)) if time == "noon"
    ));
    assert!(matches!(
        told("{\"type\":\"health_check\"}"),
        Ok(TaskWork::HealthCheck(time)) if time == "unknown"
    ));
    assert!(matches!(told("{\"type\":\"dance\"}"), Ok(TaskWork::Unknown(kind)) if kind == "dance"));
    assert!(matches!(told("{\"type\":5}"), Ok(TaskWork::Untyped)));
    assert!(matches!(told("[]"), Ok(TaskWork::Untyped)));
    assert!(matches!(told("{\"type\":\"email\"}"), Ok(TaskWork::Unreadable)));
    assert!(matches!(
        told("{\"type\":\"email\",\"to\":\"a\",\"subject\":\"b\",\"body\":\"c\"}"),
        Ok(TaskWork::Email(_))
    ));
    assert!(matches!(
        told("{\"type\":\"email\",\"to\":\"a\",\"subject\":\"b\",\"body\":\"c\",\"attempts\":-1}"),
        Ok(TaskWork::Unreadable)
    ));
    assert!(matches!(
        told("{\"type\":\"notification\",\"user_id\":\"x\",\"message\":\"m\",\"channel\":\"c\"}"),
        Ok(TaskWork::Unreadable)
    ));
    let reason = told("{").err().unwrap();
    assert_eq!(reason, "EOF while parsing an object at line 1 column 1");
}

#[test]
fn a_look_into_the_queue_may_find_nothing() {
    assert!(matches!(connected().process_next_task(None), Ok(None)));
    assert!(matches!(
        connected().process_next_task(Some("{\"type\":\"dance\"}")),
        Ok(Some(TaskWork::Unknown(_)))
    ));
    assert!(connected().process_next_task(Some("nonsense")).is_err());
}

#[test]
fn a_failing_task_is_tried_again_and_given_up() {
    let runner = connected();
    let mut task = "{\"type\":\"email\",\"n\":[1]}".to_string();
    for expected in 0..3u64 {
        match runner.handle_failed_task(&task, "boom", now()).unwrap() {
            FailedTask::Retry { task: again, delay } => {
                assert_eq!(delay, 1 << expected);
                let read = fields(&again);
                assert_eq!(read["retry_count"], expected + 1);
                assert_eq!(read["last_error"], "boom");
                assert_eq!(read["retry_at"], "2023-11-14T22:13:20+00:00");
                assert_eq!(read["type"], "email");
                assert_eq!(read["n"][0], 1);
                task = again;
            }
            other => panic!("{:?}", other),
        }
    }
    match runner.handle_failed_task(&task, "boom", now()).unwrap() {
        FailedTask::GiveUp { task: given_up } => assert_eq!(given_up, task),
        other => panic!("{:?}", other),
    }
}

#[test]
fn a_retry_keeps_what_a_task_holds() {
    let task = "{ \"type\": \"x\", \"f\": 1.5, \"o\": {\"b\": [null, \"\\n\"], \"a\": {}}, \"n\": -3 }";
    match connected().handle_failed_task(task, "boom", now()).unwrap() {
        FailedTask::Retry { task: again, delay: 1 } => assert_eq!(
            again,
            "{\"f\":1.5,\"last_error\":\"boom\",\"n\":-3,\"o\":{\"a\":{},\"b\":[null,\"\\n\"]},\
             \"retry_at\":\"2023-11-14T22:13:20+00:00\",\"retry_count\":1,\"type\":\"x\"}"
        ),
        other => panic!("{:?}", other),
    }
}

#[test]
fn a_flat_retry_is_read_again() {
    let task = EmailTask::new("a@b".to_string(), "\"hi\"".to_string(), "\n".to_string()).to_json();
    match connected().handle_failed_task(&task, "boom", now()).unwrap() {
        FailedTask::Retry { task: again, .. } => {
            match connected().execute_task_json(&again).unwrap() {
                TaskWork::Email(email) => {
                    assert_eq!(email.to, "a@b");
                    assert_eq!(email.subject, "\"hi\"");
                    assert_eq!(email.body, "\n");
                    assert_eq!(email.retry_count, 1);
                }
                other => panic!("{:?}", other),
            }
        }
        other => panic!("{:?}", other),
    }
}

#[test]
fn a_task_that_is_given_up_is_written_anew() {
    match connected().handle_failed_task("{ \"retry_count\": 3, \"a\": 1.0 }", "e", now()).unwrap() {
        FailedTask::GiveUp { task } => assert_eq!(task, "{\"a\":1.0,\"retry_count\":3}"),
        other => panic!("{:?}", other),
    }
}

#[test]
fn one_key_stands_for_the_text_beneath_it() {
    let told = |text: &str| connected().execute_task_json(text);
    assert!(matches!(
        told("{\"$serde_json::private::RawValue\":\"5\"}"),
        Ok(TaskWork::Untyped)
    ));
    assert!(matches!(
        told("{\"$serde_json::private::RawValue\":\"{\\\"type\\\":\\\"dance\\\"}\"}"),
        Ok(TaskWork::Unknown(kind)) if kind == "dance"
    ));
    assert!(told("{\"$serde_json::private::RawValue\":\"5\",\"type\":\"dance\"}").is_err());
    assert!(matches!(
        told("{\"type\":\"dance\",\"$serde_json::private::RawValue\":\"5\"}"),
        Ok(TaskWork::Unknown(kind)) if kind == "dance"
    ));
}

#[test]
fn odd_tasks_fail_too() {
    let runner = connected();
    match runner.handle_failed_task("[1]", "e", now()).unwrap() {
        FailedTask::Retry { task, delay } => assert_eq!((task.as_str(), delay), ("[1]", 1)),
        other => panic!("{:?}", other),
    }
    match runner.handle_failed_task("{\"retry_count\":4294967297}", "e", now()).unwrap() {
        FailedTask::Retry { task, delay } => {
            assert_eq!(delay, 2);
            assert_eq!(fields(&task)["retry_count"], 2);
        }
        other => panic!("{:?}", other),
    }
    assert!(matches!(
        runner.handle_failed_task("{\"retry_count\":\"7\"}", "e", now()),
        Ok(FailedTask::Retry { delay: 1, .. })
    ));
    assert!(matches!(
        runner.handle_failed_task("{\"retry_count\":3}", "e", now()),
        Ok(FailedTask::GiveUp { .. })
    ));
    assert!(runner.handle_failed_task("nonsense", "e", now()).is_err());
}

#[test]
fn a_task_knows_its_retries() {
    let mut task = DataCleanupTask::new("t".to_string(), 1);
    assert_eq!(task.retry_count(), 0);
    assert_eq!(task.max_retries(), 3);
    assert!(task.should_retry());
    assert_eq!(task.retry_delay(), 1);
    task.retry_count = 3;
    assert!(!task.should_retry());
    assert_eq!(task.retry_delay(), 8);
    assert_eq!(power_of_two(63), 1 << 63);
}

#[test]
fn a_health_check_is_queued() {
    match health_check_task(&connected(), now()) {
        Enqueued::Queue(QueueCommand::Push { queue, task }) => {
            assert_eq!(queue, "lime:tasks");
            assert_eq!(
                task,
                "{\"timestamp\":\"2023-11-14T22:13:20+00:00\",\"type\":\"health_check\"}"
            );
        }
        other => panic!("{:?}", other),
    }
    match health_check_task(&alone(), now()) {
        Enqueued::RunNow(task) => assert!(matches!(
            alone().execute_task_json(&task),
            Ok(TaskWork::HealthCheck(time)) if time == "2023-11-14T22:13:20+00:00"
        )),
        other => panic!("{:?}", other),
    }
}
