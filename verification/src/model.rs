//! Score board records as plain values, and the statements that store and fetch them.

use vstd::prelude::*;

verus! {

/// Creates the table of points and its indexes where they are missing.
pub const MIGRATE_QUERY: &'static str = "BEGIN;
            CREATE TABLE IF NOT EXISTS points (
                topic TEXT,
                user_id INTEGER,
                user_name TEXT,
                point INTEGER,
                created_at TEXT,
                updated_at TEXT
            );
            CREATE UNIQUE INDEX IF NOT EXISTS unq_idx_topic_userid ON points (topic, user_id);
            CREATE INDEX IF NOT EXISTS idx_topic ON points (topic);
            COMMIT;";

/// Adds points to the score of a user under a topic and gives the new score.
pub const PUT_POINT_QUERY: &'static str = r#"INSERT INTO points 
            (topic, user_id, user_name, point, created_at, updated_at)
            VALUES
            (?, ?, ?, ?, date(), date())
            ON CONFLICT (topic, user_id)
            DO UPDATE SET
                point = point + ?,
                updated_at = date()
            RETURNING point"#;

/// Fetches the scores under a topic.
pub const POINTS_BY_TOPIC_QUERY: &'static str =
    "SELECT user_id, user_name, point FROM points WHERE topic = ?";

/// Fetches the topic of every score.
pub const TOPICS_QUERY: &'static str = "SELECT topic FROM points";

/// One user's score under a topic.
#[derive(Debug)]
pub struct PointEntry {
    pub user_id: i64,
    pub user_name: String,
    pub points: i64,
}

/// The scores recorded under one topic.
#[derive(Debug)]
pub struct Points {
    pub topic: String,
    pub entries: Vec<PointEntry>,
}

/// A failed statement, with the store's message.
#[derive(Debug)]
pub struct ModelError {
    pub message: String,
    pub query: String,
}

/// The rows that were read, without those that were not, in their order.
pub open spec fn present<T>(rows: Seq<Option<T>>) -> Seq<T>
    decreases rows.len(),
{
    if rows.len() == 0 {
        Seq::<T>::empty()
    } else {
        match rows.last() {
            Some(row) => present(rows.drop_last()).push(row),
            None => present(rows.drop_last()),
        }
    }
}

/// Keeps the rows that were read, in their order.
pub fn keep_present<T>(rows: Vec<Option<T>>) -> (r: Vec<T>)
    ensures
        r@ == present(rows@),
{
    let mut r: Vec<T> = Vec::new();
    let mut rows = rows;
    let ghost all = rows@;
    let mut tail: Vec<T> = Vec::new();
    while rows.len() > 0
        invariant
            rows@.len() <= all.len(),
            rows@ == all.take(rows@.len() as int),
            present(all) == present(rows@) + tail@.reverse(),
        decreases rows.len(),
    {
        let ghost before = rows@;
        let row = rows.pop().unwrap();
        proof {
            assert(rows@ == before.drop_last());
            assert(rows@ == all.take(rows@.len() as int));
        }
        match row {
            Some(value) => {
                let ghost old_tail = tail@;
                tail.push(value);
                proof {
                    assert(tail@.reverse() =~= seq![value] + old_tail.reverse());
                    assert(present(before) == present(rows@).push(value));
                    assert(present(rows@).push(value) + old_tail.reverse() =~= present(rows@)
                        + tail@.reverse());
                }
            },
            None => {},
        }
    }
    proof {
        assert(present(rows@) =~= Seq::<T>::empty());
        assert(present(all) =~= tail@.reverse());
    }
    while tail.len() > 0
        invariant
            present(all) == r@ + tail@.reverse(),
        decreases tail.len(),
    {
        let ghost before = tail@;
        let value = tail.pop().unwrap();
        proof {
            assert(before.reverse() =~= seq![value] + tail@.reverse());
        }
        r.push(value);
        proof {
            assert(r@ + tail@.reverse() =~= present(all));
        }
    }
    proof {
        assert(tail@.reverse() =~= Seq::<T>::empty());
        assert(r@ + Seq::<T>::empty() =~= r@);
    }
    r
}

impl Points {
    /// The scores under `topic`, from the rows that were fetched for it.
    pub fn new(topic: String, rows: Vec<Option<PointEntry>>) -> (r: Points)
        ensures
            r.topic == topic,
            r.entries@ == present(rows@),
    {
        Points { topic, entries: keep_present(rows) }
    }
}

impl ModelError {
    /// The failure of the statement `query`, with the store's message.
    pub fn new(message: String, query: &str) -> (r: ModelError)
        ensures
            r.message == message,
            r.query@ == query@,
    {
        ModelError { message, query: query.to_owned() }
    }
}

} // verus!
