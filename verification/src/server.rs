//! The compute cores of the message sources: assembling a message record
//! from one piece of mail, rebuilding a group from a mailbox listing, and
//! the demo source's generator. The sources' I/O — reading a mailbox,
//! watching a directory, sleeping — stays outside the library and hands
//! these functions plain values.

use vstd::prelude::*;

use crate::message_group::{put_all, MessageGroup};
use crate::model::{Message, MessageView};
use crate::strings::str_eq;
use crate::view::decimal_digits;
use vstd::string::StringExecFns;

verus! {

/// The value of the first header with the given name, if any.
pub open spec fn first_header(
    headers: Seq<(Seq<char>, Seq<char>)>,
    name: Seq<char>,
) -> Option<Seq<char>>
    decreases headers.len(),
{
    if headers.len() == 0 {
        None
    } else if headers.first().0 == name {
        Some(headers.first().1)
    } else {
        first_header(headers.drop_first(), name)
    }
}

/// The headers as character sequences.
pub open spec fn header_views(headers: Seq<(String, String)>) -> Seq<(Seq<char>, Seq<char>)> {
    headers.map_values(|h: (String, String)| (h.0@, h.1@))
}

/// The sender tag shown for a piece of mail: the first sixteen characters
/// of its From header, or nothing when the header is missing.
pub open spec fn mail_from_tag(headers: Seq<(Seq<char>, Seq<char>)>, from_name: Seq<char>) -> Seq<
    char,
> {
    match first_header(headers, from_name) {
        Some(f) => if f.len() <= 16 {
            f
        } else {
            f.take(16)
        },
        None => Seq::empty(),
    }
}

/// The body shown for a piece of mail: its Subject header, or a fixed
/// placeholder when the header is missing.
pub open spec fn mail_body(
    headers: Seq<(Seq<char>, Seq<char>)>,
    subject_name: Seq<char>,
    placeholder: Seq<char>,
) -> Seq<char> {
    match first_header(headers, subject_name) {
        Some(s) => s,
        None => placeholder,
    }
}

/// The value of the first header with the given name, if any.
fn find_header<'a>(headers: &'a Vec<(String, String)>, name: &str) -> (r: Option<&'a String>)
    ensures
        match r {
            Some(v) => first_header(header_views(headers@), name@) == Some(v@),
            None => first_header(header_views(headers@), name@) is None,
        },
{
    let n = headers.len();
    let mut i: usize = 0;
    while i < n
        invariant
            i <= n,
            n == headers@.len(),
            forall|j: int| 0 <= j < i ==> header_views(headers@)[j].0 != name@,
        decreases n - i,
    {
        if str_eq(headers[i].0.as_str(), name) {
            proof {
                lemma_first_header_at(header_views(headers@), name@, i as int);
            }
            return Some(&headers[i].1);
        }
        i += 1;
    }
    proof {
        lemma_first_header_absent(header_views(headers@), name@);
    }
    None
}

proof fn lemma_first_header_at(headers: Seq<(Seq<char>, Seq<char>)>, name: Seq<char>, i: int)
    requires
        0 <= i < headers.len(),
        headers[i].0 == name,
        forall|j: int| 0 <= j < i ==> headers[j].0 != name,
    ensures
        first_header(headers, name) == Some(headers[i].1),
    decreases i,
{
    if i > 0 {
        assert forall|j: int| 0 <= j < i - 1 implies headers.drop_first()[j].0 != name by {
            assert(headers[j + 1].0 != name);
        }
        lemma_first_header_at(headers.drop_first(), name, i - 1);
    }
}

proof fn lemma_first_header_absent(headers: Seq<(Seq<char>, Seq<char>)>, name: Seq<char>)
    requires
        forall|j: int| 0 <= j < headers.len() ==> headers[j].0 != name,
    ensures
        first_header(headers, name) is None,
    decreases headers.len(),
{
    if headers.len() > 0 {
        assert forall|j: int|
            0 <= j < headers.drop_first().len() implies headers.drop_first()[j].0 != name by {
            assert(headers[j + 1].0 != name);
        }
        lemma_first_header_absent(headers.drop_first(), name);
    }
}

/// Assemble the message record shown for one piece of mail: the mail id,
/// its timestamp, the first sixteen characters of its sender as the only
/// tag, and its subject as the body.
pub fn mail_message(id: String, timestamp: i64, headers: &Vec<(String, String)>) -> (r: Message)
    ensures
        r@.id == id@,
        r@.counter is None,
        r@.time == Some(timestamp),
        r@.body == mail_body(header_views(headers@), "Subject"@, "No Subject"@),
        r@.tags == seq![mail_from_tag(header_views(headers@), "From"@)],
{
    let subject: String = match find_header(headers, "Subject") {
        Some(s) => s.clone(),
        None => "No Subject".to_owned(),
    };
    let from: String = match find_header(headers, "From") {
        Some(f) => {
            let len = f.as_str().unicode_len();
            if len <= 16 {
                f.clone()
            } else {
                f.as_str().substring_char(0, 16).to_owned()
            }
        },
        None => String::new(),
    };
    let mut tags: Vec<String> = Vec::new();
    tags.push(from);
    let r = Message { id, counter: None, tags, body: subject, time: Some(timestamp) };
    proof {
        let found = first_header(header_views(headers@), "From"@);
        if found is Some && found->Some_0.len() > 16 {
            assert(r@.tags[0] =~= found->Some_0.take(16));
        }
        assert(r@.tags =~= seq![mail_from_tag(header_views(headers@), "From"@)]);
    }
    r
}

/// Rebuild a group's regular messages from a fresh mailbox listing: stale
/// entries are dropped, and the listed messages are added oldest first, so
/// the newest mail ends up most recently used.
pub fn rebuild_from_mail(group: &mut MessageGroup, messages: &Vec<Message>)
    requires
        old(group).wf(),
    ensures
        final(group).wf(),
        final(group).msgs_contents() == put_all(
            Seq::empty(),
            old(group).msgs_cap(),
            messages@.map_values(|m: Message| m@),
        ),
        final(group).pinned_contents() == old(group).pinned_contents(),
        final(group).meta_spec() == old(group).meta_spec(),
        final(group).counter_spec() == old(group).counter_spec(),
        final(group).msgs_cap() == old(group).msgs_cap(),
        final(group).pinned_cap() == old(group).pinned_cap(),
{
    group.clear_messages();
    group.add_messages(messages);
}

/// The timestamped mail records as mathematical values.
pub open spec fn mail_views(s: Seq<(i64, Message)>) -> Seq<(i64, MessageView)> {
    s.map_values(|e: (i64, Message)| (e.0, e.1@))
}

/// Where a record with timestamp `ts` belongs: after every record at most
/// as old, so that records with equal timestamps keep their input order.
pub open spec fn mail_position(s: Seq<(i64, MessageView)>, ts: i64) -> int
    decreases s.len(),
{
    if s.len() == 0 {
        0
    } else if s.first().0 > ts {
        0
    } else {
        1 + mail_position(s.drop_first(), ts)
    }
}

/// The mail records sorted by timestamp, oldest first: each input record,
/// first to last, inserted after every record at most as old.
pub open spec fn mail_sorted(s: Seq<(i64, MessageView)>) -> Seq<(i64, MessageView)>
    decreases s.len(),
{
    if s.len() == 0 {
        Seq::empty()
    } else {
        let prev = mail_sorted(s.drop_last());
        prev.insert(mail_position(prev, s.last().0), s.last())
    }
}

proof fn lemma_mail_position_from_scan(s: Seq<(i64, MessageView)>, ts: i64, p: int)
    requires
        0 <= p <= s.len(),
        forall|j: int| 0 <= j < p ==> s[j].0 <= ts,
        p < s.len() ==> s[p].0 > ts,
    ensures
        mail_position(s, ts) == p,
    decreases p,
{
    if p > 0 {
        assert forall|j: int| 0 <= j < p - 1 implies s.drop_first()[j].0 <= ts by {
            assert(s[j + 1].0 <= ts);
        }
        if p - 1 < s.drop_first().len() {
            assert(s.drop_first()[p - 1] == s[p]);
        }
        lemma_mail_position_from_scan(s.drop_first(), ts, p - 1);
    }
}

/// Whether the records are sorted by timestamp, oldest first.
pub open spec fn sorted_by_time(s: Seq<(i64, MessageView)>) -> bool {
    forall|i: int, j: int| 0 <= i < j < s.len() ==> s[i].0 <= s[j].0
}

/// Sort the mail records by timestamp, oldest first and stably, so that
/// when they are then added to a group in order, the newest mail ends up
/// most recently used.
pub fn sort_mail_by_timestamp(entries: Vec<(i64, Message)>) -> (r: Vec<(i64, Message)>)
    ensures
        mail_views(r@) == mail_sorted(mail_views(entries@)),
        sorted_by_time(mail_views(r@)),
{
    let ghost orig = mail_views(entries@);
    let mut entries = entries;
    let mut out: Vec<(i64, Message)> = Vec::new();
    while entries.len() > 0
        invariant
            entries@.len() <= orig.len(),
            mail_views(entries@) == orig.skip(orig.len() - entries@.len()),
            mail_views(out@) == mail_sorted(orig.take(orig.len() - entries@.len())),
            sorted_by_time(mail_views(out@)),
        decreases entries@.len(),
    {
        let ghost done: int = orig.len() - entries@.len();
        let ghost prev_in = entries@;
        let ghost prev_out = mail_views(out@);
        let e = entries.remove(0);
        proof {
            assert(mail_views(prev_in)[0] == (prev_in[0].0, prev_in[0].1@));
            assert((e.0, e.1@) == orig.skip(done)[0]);
            assert(orig.skip(done)[0] == orig[done]);
            assert(mail_views(entries@) =~= orig.skip(done + 1)) by {
                assert forall|j: int|
                    0 <= j < entries@.len() implies mail_views(entries@)[j] == #[trigger] (orig.skip(
                    done + 1,
                )[j]) by {
                    assert(entries@[j] == prev_in[j + 1]);
                    assert(mail_views(prev_in)[j + 1] == (prev_in[j + 1].0, prev_in[j + 1].1@));
                    assert(orig.skip(done)[j + 1] == orig[done + 1 + j]);
                    assert(orig.skip(done + 1)[j] == orig[done + 1 + j]);
                }
            }
        }
        // Scan for the first record strictly newer than this one.
        let n = out.len();
        let mut p: usize = 0;
        loop
            invariant
                p <= n,
                n == out@.len(),
                mail_views(out@) == prev_out,
                forall|j: int| 0 <= j < p ==> prev_out[j].0 <= e.0,
            ensures
                p <= n,
                mail_views(out@) == prev_out,
                forall|j: int| 0 <= j < p ==> prev_out[j].0 <= e.0,
                p < n ==> prev_out[p as int].0 > e.0,
            decreases n - p,
        {
            if p >= n {
                break ;
            }
            if out[p].0 > e.0 {
                proof {
                    assert(prev_out[p as int].0 == out@[p as int].0);
                }
                break ;
            }
            proof {
                assert(prev_out[p as int].0 == out@[p as int].0);
            }
            p += 1;
        }
        proof {
            lemma_mail_position_from_scan(prev_out, e.0, p as int);
        }
        out.insert(p, e);
        proof {
            assert(mail_views(out@) =~= prev_out.insert(p as int, (e.0, e.1@)));
            assert(orig.take(done + 1).drop_last() =~= orig.take(done));
            assert(orig.take(done + 1).last() == orig[done]);
            assert forall|a: int, b: int|
                0 <= a < b < mail_views(out@).len() implies mail_views(out@)[a].0 <= mail_views(
                out@,
            )[b].0 by {
                let a0: int = if a < p {
                    a
                } else {
                    a - 1
                };
                let b0: int = if b < p {
                    b
                } else {
                    b - 1
                };
                if a == p {
                    assert(mail_views(out@)[b] == prev_out[b0]);
                    assert(prev_out[b0].0 > e.0);
                } else if b == p {
                    assert(mail_views(out@)[a] == prev_out[a0]);
                    assert(prev_out[a0].0 <= e.0);
                } else {
                    assert(mail_views(out@)[a] == prev_out[a0]);
                    assert(mail_views(out@)[b] == prev_out[b0]);
                    if a0 < p && b0 >= p {
                        assert(prev_out[a0].0 <= e.0);
                        assert(prev_out[b0].0 > e.0);
                    }
                }
            }
        }
    }
    proof {
        assert(orig.take(orig.len() as int) =~= orig);
    }
    out
}

/// The demo source's next counter: a fixed mixing step over the previous
/// one.
pub fn test_step(i: u64) -> (r: u64)
    ensures
        r == i.wrapping_add(i << 17).wrapping_add(i >> 13),
{
    i.wrapping_add(i << 17).wrapping_add(i >> 13)
}

/// The message the demo source emits at step `i`: a cycling id and tag, and
/// the step number as the body.
pub fn test_message(i: u64, time: i64) -> (r: Message)
    ensures
        r@.id == "aaa"@ + decimal_digits((i % 24) as nat),
        r@.counter is None,
        r@.tags == seq!["foo"@ + decimal_digits((i % 24) as nat)],
        r@.body == decimal_digits(i as nat),
        r@.time == Some(time),
{
    let slot = i % 24;
    let mut id = "aaa".to_owned();
    id.append(crate::view::u64_digits(slot).as_str());
    let mut tag = "foo".to_owned();
    tag.append(crate::view::u64_digits(slot).as_str());
    let mut tags: Vec<String> = Vec::new();
    tags.push(tag);
    let r = Message {
        id,
        counter: None,
        tags,
        body: crate::view::u64_digits(i),
        time: Some(time),
    };
    proof {
        assert(r@.tags =~= seq!["foo"@ + decimal_digits((i % 24) as nat)]);
    }
    r
}

} // verus!
