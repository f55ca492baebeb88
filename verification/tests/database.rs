use site_grabber::download::TableDownload;
use site_grabber::statement::{SqlValue, Statement};
use sqlx::sqlite::SqlitePoolOptions;
use sqlx::{Row, SqlitePool};
use tokio::runtime::Runtime;

const SCHEMA: &str = "CREATE TABLE downloads (
    site_id INTEGER NOT NULL,
    download_url TEXT NOT NULL UNIQUE,
    local_path TEXT NOT NULL DEFAULT '',
    attempts INTEGER NOT NULL DEFAULT 0,
    last_attempt_at INTEGER,
    completed INTEGER NOT NULL DEFAULT 0,
    enable INTEGER NOT NULL DEFAULT 1
)";

const NOW: u64 = 1_000_000;

/// A queue in memory.
struct Queue {
    runtime: Runtime,
    pool: SqlitePool,
}

impl Queue {
    fn new() -> Queue {
        let runtime = Runtime::new().unwrap();
        let options = SqlitePoolOptions::new().max_connections(1);
        let pool = runtime.block_on(options.connect("sqlite::memory:")).unwrap();
        runtime.block_on(sqlx::query(SCHEMA).execute(&pool)).unwrap();
        Queue { runtime, pool }
    }

    fn execute(&self, statement: Statement) -> u64 {
        let mut query = sqlx::query(statement.sql);
        for arg in statement.args {
            query = match arg {
                SqlValue::Int(n) => query.bind(n),
                SqlValue::Text(text) => query.bind(text),
            };
        }
        self.runtime.block_on(query.execute(&self.pool)).unwrap().rows_affected()
    }

    fn rows(&self, statement: Statement) -> Vec<sqlx::sqlite::SqliteRow> {
        let mut query = sqlx::query(statement.sql);
        for arg in statement.args {
            query = match arg {
                SqlValue::Int(n) => query.bind(n),
                SqlValue::Text(text) => query.bind(text),
            };
        }
        self.runtime.block_on(query.fetch_all(&self.pool)).unwrap()
    }

    fn holds(&self, link: &str) -> bool {
        !self.rows(TableDownload::link_exists(link).unwrap().statement()).is_empty()
    }

    fn append(&self, site_id: i64, link: &str) -> u64 {
        match TableDownload::append(site_id, link, self.holds(link)) {
            Some(new_link) => self.execute(new_link.statement()),
            None => 0,
        }
    }

    fn due(&self, site_id: i64, now: u64) -> Vec<TableDownload> {
        self.rows(TableDownload::get_not_completed(site_id, now, 5).statement())
            .into_iter()
            .map(|row| TableDownload {
                site_id: row.get("site_id"),
                download_url: row.get("download_url"),
                local_path: row.get("local_path"),
                attempts: row.get("attempts"),
                last_attempt_at: row.get("last_attempt_at"),
            })
            .collect()
    }

    fn change(&self, sql: &'static str) {
        self.execute(Statement { sql, args: vec![] });
    }
}

#[test]
fn a_link_is_queued_once() {
    let queue = Queue::new();
    assert_eq!(queue.append(1, "https://example.com/f?x=1"), 1);
    assert_eq!(queue.append(1, "https://example.com/f?x=1"), 0);
    assert_eq!(queue.append(1, "https://example.com/f?x=2"), 0);
    assert_eq!(queue.append(1, "https://example.com/g"), 1);
    assert!(queue.holds("https://example.com/f"));
    assert!(!queue.holds("https://example.com/ff"));
    assert!(queue.holds("https://example.com/"));
}

#[test]
fn a_link_that_failed_too_often_may_be_queued_with_another_query() {
    let queue = Queue::new();
    assert_eq!(queue.append(1, "https://example.com/f?x=1"), 1);
    queue.change("UPDATE downloads SET attempts = 5");
    assert_eq!(queue.append(1, "https://example.com/f?x=1"), 0);
    assert_eq!(queue.append(1, "https://example.com/f?x=2"), 1);
}

#[test]
fn links_that_were_queued_are_not_queued_again() {
    let queue = Queue::new();
    let links = [
        "https://example.com/f?x=1#top",
        "https://example.com/f?x=2#top",
        "https://example.com/g",
        "https://example.com/g?y",
        "https://example.com/G",
        "https://example.com/g",
    ];
    let table = || -> Vec<(i64, String, i64)> {
        let sql = "SELECT site_id, download_url, attempts FROM downloads ORDER BY rowid";
        let rows = queue.rows(Statement { sql, args: vec![] });
        rows.iter()
            .map(|row| (row.get("site_id"), row.get("download_url"), row.get("attempts")))
            .collect()
    };
    for link in links {
        queue.append(1, link);
    }
    let first = table();
    assert_eq!(first.len(), 3);
    for link in links {
        assert_eq!(queue.append(2, link), 0);
    }
    assert_eq!(table(), first);
    queue.change("UPDATE downloads SET attempts = 5");
    let tried = table();
    for link in ["https://example.com/f?x=1#top", "https://example.com/g"] {
        assert_eq!(queue.append(2, link), 0);
    }
    assert_eq!(table(), tried);
}

#[test]
fn links_that_begin_like_the_pattern_are_found() {
    let queue = Queue::new();
    queue.append(1, "https://example.com/a_b%20c/d");
    let found = |prefix: &str| {
        !queue.rows(TableDownload::prefix_exists(prefix.to_string()).statement()).is_empty()
    };
    assert!(found(""));
    assert!(found("https://example.com/a_b%20c/d"));
    assert!(found("https://example.com/A_B%20C"));
    assert!(found("https://example.com/__b"));
    assert!(found("%com/a"));
    assert!(!found("https://example.com/a_b%20c/de"));
    assert!(!found("https://example.com/b"));
    assert!(!found("com/a"));
}

#[test]
fn two_reservations_of_one_state_do_not_both_succeed() {
    let queue = Queue::new();
    queue.append(1, "https://example.com/f");
    let link = queue.due(1, NOW).remove(0);
    assert_eq!((link.attempts, link.last_attempt_at), (0, None));
    assert_eq!(queue.execute(link.reserved(NOW).statement()), 1);
    assert_eq!(queue.execute(link.reserved(NOW + 1).statement()), 0);

    let later = NOW + 3 * 60 * 60 + 1;
    let link = queue.due(1, later).remove(0);
    assert_eq!((link.attempts, link.last_attempt_at), (1, Some(NOW as i64)));
    assert_eq!(queue.execute(link.reserved(later).statement()), 1);
    assert_eq!(queue.execute(link.reserved(later).statement()), 0);
}

#[test]
fn a_reservation_lasts_three_hours() {
    let queue = Queue::new();
    queue.append(1, "https://example.com/f");
    let link = queue.due(1, NOW).remove(0);
    queue.execute(link.reserved(NOW).statement());
    assert!(queue.due(1, NOW).is_empty());
    assert!(queue.due(1, NOW + 3 * 60 * 60).is_empty());
    assert_eq!(queue.due(1, NOW + 3 * 60 * 60 + 1).len(), 1);
}

#[test]
fn the_queue_runs_dry() {
    let queue = Queue::new();
    for name in ["a", "b", "c"] {
        queue.append(1, &format!("https://example.com/{name}"));
    }
    let mut now = NOW;
    let mut reserved = 0;
    loop {
        let due = queue.due(1, now);
        if due.is_empty() {
            break;
        }
        for link in due {
            assert!(link.attempts < 5);
            reserved += queue.execute(link.reserved(now).statement());
        }
        now += 3 * 60 * 60 + 1;
    }
    assert_eq!(reserved, 3 * 5);
}

#[test]
fn a_link_that_is_complete_is_never_due_again() {
    let queue = Queue::new();
    queue.append(1, "https://example.com/f");
    let mut link = queue.due(1, NOW).remove(0);
    assert_eq!(queue.execute(link.set_complete(Some("files/f".to_string())).statement()), 1);
    assert!(queue.due(1, NOW * 2).is_empty());
    assert_eq!(queue.execute(link.reserved(NOW).statement()), 0);
    let rows = queue.rows(Statement { sql: "SELECT local_path, completed FROM downloads", args: vec![] });
    assert_eq!(rows[0].get::<String, _>("local_path"), "files/f");
    assert_eq!(rows[0].get::<i64, _>("completed"), 1);
}

#[test]
fn only_the_row_of_the_link_is_marked() {
    let queue = Queue::new();
    queue.append(1, "https://example.com/f");
    queue.append(1, "https://example.com/g");
    let mut link = queue.due(1, NOW).remove(0);
    queue.execute(link.reserved(NOW).statement());
    queue.execute(link.set_complete(Some("files/f".to_string())).statement());
    let sql = "SELECT * FROM downloads ORDER BY rowid";
    let rows = queue.rows(Statement { sql, args: vec![] });
    let read = |row: &sqlx::sqlite::SqliteRow| -> (i64, String, String, i64, Option<i64>, i64, i64) {
        (
            row.get("site_id"),
            row.get("download_url"),
            row.get("local_path"),
            row.get("attempts"),
            row.get("last_attempt_at"),
            row.get("completed"),
            row.get("enable"),
        )
    };
    let (f, g) = ("https://example.com/f".to_string(), "https://example.com/g".to_string());
    assert_eq!(read(&rows[0]), (1, f, "files/f".to_string(), 1, Some(NOW as i64), 1, 1));
    assert_eq!(read(&rows[1]), (1, g, String::new(), 0, None, 0, 1));
}

#[test]
fn only_wanted_links_of_the_site_are_due() {
    let queue = Queue::new();
    queue.append(1, "https://example.com/f");
    queue.append(2, "https://example.com/g");
    assert_eq!(queue.due(2, NOW)[0].download_url, "https://example.com/g");
    queue.change("UPDATE downloads SET enable = 0 WHERE site_id = 2");
    assert!(queue.due(2, NOW).is_empty());
    assert_eq!(queue.due(1, NOW).len(), 1);
    for i in 0..9 {
        queue.append(1, &format!("https://example.com/more/{i}"));
    }
    assert_eq!(queue.due(1, NOW).len(), 5);
}
