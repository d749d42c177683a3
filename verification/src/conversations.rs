//! Grouping SMS into conversations, one per phone number.
//!
//! Grouping keeps a `Vec` of conversations whose numbers are distinct (in
//! place of an ordered map keyed by number), and sorting is a stable
//! insertion sort proved here (in place of `slice::sort_by`); both give the
//! order that the map and the stable sort would.
//!
//! Strings are ordered as Rust orders `String`s: lexicographically by their
//! characters' code points (the order of their UTF-8 bytes).
use vstd::prelude::*;
use crate::sms::SmsMessage;
use crate::text::chars_of;

verus! {

broadcast use vstd::seq_lib::group_seq_properties;

/// `a` sorts strictly before `b`.
pub open spec fn str_lt(a: Seq<char>, b: Seq<char>) -> bool
    decreases a.len(),
{
    if a.len() == 0 {
        b.len() > 0
    } else if b.len() == 0 {
        false
    } else if a[0] != b[0] {
        a[0] < b[0]
    } else {
        str_lt(a.drop_first(), b.drop_first())
    }
}

pub proof fn lemma_str_lt_irreflexive(a: Seq<char>)
    ensures
        !str_lt(a, a),
    decreases a.len(),
{
    if a.len() > 0 {
        lemma_str_lt_irreflexive(a.drop_first());
    }
}

pub proof fn lemma_str_lt_total(a: Seq<char>, b: Seq<char>)
    ensures
        a != b ==> str_lt(a, b) || str_lt(b, a),
        !(str_lt(a, b) && str_lt(b, a)),
    decreases a.len(),
{
    if a.len() > 0 && b.len() > 0 {
        if a[0] == b[0] {
            lemma_str_lt_total(a.drop_first(), b.drop_first());
            if a.drop_first() == b.drop_first() {
                assert(a =~= seq![a[0]] + a.drop_first());
                assert(b =~= seq![b[0]] + b.drop_first());
            }
        }
    } else if a.len() == 0 && b.len() == 0 {
        assert(a =~= b);
    }
}

pub proof fn lemma_str_lt_transitive(a: Seq<char>, b: Seq<char>, c: Seq<char>)
    requires
        str_lt(a, b),
        str_lt(b, c),
    ensures
        str_lt(a, c),
    decreases a.len(),
{
    if a.len() > 0 && b.len() > 0 && c.len() > 0 && a[0] == b[0] && b[0] == c[0] {
        lemma_str_lt_transitive(a.drop_first(), b.drop_first(), c.drop_first());
    }
}

fn chars_lt(a: &Vec<char>, b: &Vec<char>) -> (r: bool)
    ensures
        r == str_lt(a@, b@),
{
    let mut i: usize = 0;
    assert(a@.skip(0) =~= a@);
    assert(b@.skip(0) =~= b@);
    loop
        invariant
            i <= a.len(),
            i <= b.len(),
            str_lt(a@, b@) == str_lt(a@.skip(i as int), b@.skip(i as int)),
        decreases a.len() - i,
    {
        if i == a.len() {
            return i < b.len();
        }
        if i == b.len() {
            return false;
        }
        if a[i] != b[i] {
            return a[i] < b[i];
        }
        assert(a@.skip(i as int).drop_first() =~= a@.skip(i + 1));
        assert(b@.skip(i as int).drop_first() =~= b@.skip(i + 1));
        i = i + 1;
    }
}

/// Whether `a` sorts strictly before `b`.
pub fn str_less(a: &str, b: &str) -> (r: bool)
    ensures
        r == str_lt(a@, b@),
{
    chars_lt(&chars_of(a), &chars_of(b))
}

// ---------------------------------------------------------------- sorting messages

/// Inserts `m` into `sorted` after every message not later than it.
pub open spec fn insert_by_time(sorted: Seq<SmsMessage>, m: SmsMessage) -> Seq<SmsMessage>
    decreases sorted.len(),
{
    if sorted.len() == 0 {
        seq![m]
    } else if !str_lt(m.timestamp@, sorted.last().timestamp@) {
        sorted.push(m)
    } else {
        insert_by_time(sorted.drop_last(), m).push(sorted.last())
    }
}

/// The messages in order of timestamp; messages with equal timestamps keep
/// their relative order (a stable sort).
pub open spec fn sort_by_time(s: Seq<SmsMessage>) -> Seq<SmsMessage>
    decreases s.len(),
{
    if s.len() == 0 {
        s
    } else {
        insert_by_time(sort_by_time(s.drop_last()), s.last())
    }
}

pub open spec fn time_sorted(s: Seq<SmsMessage>) -> bool {
    forall|i: int, j: int|
        0 <= i < j < s.len() ==> !str_lt(#[trigger] s[j].timestamp@, #[trigger] s[i].timestamp@)
}

proof fn lemma_insert_step(s: Seq<SmsMessage>, m: SmsMessage, j: int)
    requires
        0 < j <= s.len(),
        str_lt(m.timestamp@, s[j - 1].timestamp@),
    ensures
        insert_by_time(s.take(j), m) + s.skip(j) == insert_by_time(s.take(j - 1), m) + s.skip(
            j - 1,
        ),
{
    assert(s.take(j).drop_last() =~= s.take(j - 1));
    assert(s.take(j).last() == s[j - 1]);
    assert(s.skip(j - 1) =~= seq![s[j - 1]] + s.skip(j));
    assert(insert_by_time(s.take(j - 1), m).push(s[j - 1]) + s.skip(j) =~= insert_by_time(
        s.take(j - 1),
        m,
    ) + s.skip(j - 1));
}

fn insert_by_time_exec(v: &mut Vec<SmsMessage>, m: SmsMessage)
    ensures
        final(v)@ == insert_by_time(old(v)@, m),
{
    let ghost s = v@;
    let mut j: usize = v.len();
    assert(s.take(j as int) =~= s);
    assert(s.skip(j as int) =~= Seq::<SmsMessage>::empty());
    while j > 0 && str_less(m.timestamp.as_str(), v[j - 1].timestamp.as_str())
        invariant
            j <= v.len(),
            v@ == s,
            insert_by_time(s, m) == insert_by_time(s.take(j as int), m) + s.skip(j as int),
        decreases j,
    {
        proof {
            lemma_insert_step(s, m, j as int);
        }
        j = j - 1;
    }
    proof {
        if j == 0 {
            assert(s.take(0) =~= Seq::<SmsMessage>::empty());
        }
    }
    v.insert(j, m);
    assert(v@ =~= s.take(j as int).push(m) + s.skip(j as int));
}

/// Sorts messages by timestamp, keeping the order of equal timestamps.
pub fn sort_messages(msgs: Vec<SmsMessage>) -> (r: Vec<SmsMessage>)
    ensures
        r@ == sort_by_time(msgs@),
{
    let mut r: Vec<SmsMessage> = Vec::new();
    let mut i: usize = 0;
    while i < msgs.len()
        invariant
            i <= msgs.len(),
            r@ == sort_by_time(msgs@.take(i as int)),
        decreases msgs.len() - i,
    {
        assert(msgs@.take(i + 1).drop_last() =~= msgs@.take(i as int));
        insert_by_time_exec(&mut r, msgs[i].clone());
        i = i + 1;
    }
    assert(msgs@.take(msgs.len() as int) =~= msgs@);
    r
}

/// A message not earlier than every message of a sorted sequence can be
/// appended to it.
proof fn lemma_sorted_push(t: Seq<SmsMessage>, l: SmsMessage)
    requires
        time_sorted(t),
        forall|k: int| 0 <= k < t.len() ==> !str_lt(l.timestamp@, #[trigger] t[k].timestamp@),
    ensures
        time_sorted(t.push(l)),
{
    let r = t.push(l);
    assert forall|i: int, j: int| 0 <= i < j < r.len() implies !str_lt(
        #[trigger] r[j].timestamp@,
        #[trigger] r[i].timestamp@,
    ) by {
        assert(r[i] == t[i]);
        if j < t.len() {
            assert(r[j] == t[j]);
            assert(!str_lt(t[j].timestamp@, t[i].timestamp@));
        } else {
            assert(r[j] == l);
            assert(!str_lt(l.timestamp@, t[i].timestamp@));
        }
    }
}

/// In a sorted sequence, a message not earlier than the last is not
/// earlier than any.
proof fn lemma_after_last(s: Seq<SmsMessage>, m: SmsMessage)
    requires
        time_sorted(s),
        s.len() > 0,
        !str_lt(m.timestamp@, s.last().timestamp@),
    ensures
        forall|k: int| 0 <= k < s.len() ==> !str_lt(m.timestamp@, #[trigger] s[k].timestamp@),
{
    assert forall|k: int| 0 <= k < s.len() implies !str_lt(m.timestamp@, #[trigger] s[k].timestamp@) by {
        if k < s.len() - 1 {
            let a = s[k].timestamp@;
            let b = s[s.len() - 1].timestamp@;
            assert(!str_lt(b, a));
            lemma_str_lt_total(a, b);
            if str_lt(m.timestamp@, a) {
                if a == b {
                } else {
                    lemma_str_lt_transitive(m.timestamp@, a, b);
                }
            }
        }
    }
}

proof fn lemma_insert_by_time(s: Seq<SmsMessage>, m: SmsMessage)
    requires
        time_sorted(s),
    ensures
        time_sorted(insert_by_time(s, m)),
        insert_by_time(s, m).to_multiset() == s.to_multiset().insert(m),
        insert_by_time(s, m).len() == s.len() + 1,
        forall|k: int|
            0 <= k < insert_by_time(s, m).len() ==> #[trigger] insert_by_time(s, m)[k] == m
                || s.contains(insert_by_time(s, m)[k]),
    decreases s.len(),
{
    broadcast use vstd::seq_lib::to_multiset_build;

    if s.len() == 0 {
        assert(seq![m] =~= Seq::<SmsMessage>::empty().push(m));
    } else if !str_lt(m.timestamp@, s.last().timestamp@) {
        lemma_after_last(s, m);
        lemma_sorted_push(s, m);
    } else {
        let rest = s.drop_last();
        let l = s.last();
        assert forall|i: int, j: int| 0 <= i < j < rest.len() implies !str_lt(
            #[trigger] rest[j].timestamp@,
            #[trigger] rest[i].timestamp@,
        ) by {
            assert(rest[i] == s[i] && rest[j] == s[j]);
        }
        lemma_insert_by_time(rest, m);
        let ins = insert_by_time(rest, m);
        assert(s =~= rest.push(l));
        assert forall|k: int| 0 <= k < ins.len() implies !str_lt(l.timestamp@, #[trigger] ins[k].timestamp@) by {
            let x = ins[k];
            if x == m {
                lemma_str_lt_total(m.timestamp@, l.timestamp@);
            } else {
                assert(rest.contains(x));
                let q = choose|q: int| 0 <= q < rest.len() && rest[q] == x;
                assert(s[q] == x);
                assert(!str_lt(s[s.len() - 1].timestamp@, s[q].timestamp@));
            }
        }
        lemma_sorted_push(ins, l);
        let r = ins.push(l);
        assert forall|k: int| 0 <= k < r.len() implies #[trigger] r[k] == m || s.contains(
            r[k],
        ) by {
            if k < ins.len() {
                if ins[k] != m {
                    let x = ins[k];
                    assert(rest.contains(x));
                    let q = choose|q: int| 0 <= q < rest.len() && rest[q] == x;
                    assert(s[q] == x);
                }
            } else {
                assert(s[s.len() - 1] == l);
            }
        }
    }
}

/// Sorting by time gives messages in timestamp order, and the same
/// messages as before.
pub proof fn law_sort_by_time(s: Seq<SmsMessage>)
    ensures
        time_sorted(sort_by_time(s)),
        sort_by_time(s).to_multiset() == s.to_multiset(),
        sort_by_time(s).len() == s.len(),
    decreases s.len(),
{
    broadcast use vstd::seq_lib::to_multiset_build;

    if s.len() > 0 {
        law_sort_by_time(s.drop_last());
        lemma_insert_by_time(sort_by_time(s.drop_last()), s.last());
        assert(s =~= s.drop_last().push(s.last()));
    }
}

// ---------------------------------------------------------------- conversations

/// The messages exchanged with one phone number.
#[derive(Debug)]
pub struct Conversation {
    pub number: String,
    pub messages: Vec<SmsMessage>,
}

impl Clone for Conversation {
    fn clone(&self) -> (r: Self)
        ensures
            r.number == self.number,
            r.messages@ == self.messages@,
    {
        let messages = self.messages.clone();
        proof {
            assert forall|i: int| 0 <= i < messages.len() implies messages@[i]
                == self.messages@[i] by {
                assert(cloned::<SmsMessage>(self.messages[i], messages[i]));
            }
            assert(messages@ =~= self.messages@);
        }
        Conversation { number: self.number.clone(), messages }
    }
}

impl Conversation {
    /// The timestamp of the last message, empty when there is none.
    pub open spec fn last_ts(self) -> Seq<char> {
        if self.messages@.len() == 0 {
            seq![]
        } else {
            self.messages@.last().timestamp@
        }
    }

    /// The text of the last message, empty when there is none.
    pub open spec fn last_text(self) -> Seq<char> {
        if self.messages@.len() == 0 {
            seq![]
        } else {
            self.messages@.last().text@
        }
    }

    pub fn last_message_preview(&self) -> (r: &str)
        ensures
            r@ == self.last_text(),
    {
        proof {
            reveal_strlit("");
        }
        if self.messages.len() == 0 {
            ""
        } else {
            self.messages[self.messages.len() - 1].text.as_str()
        }
    }

    pub fn last_timestamp(&self) -> (r: &str)
        ensures
            r@ == self.last_ts(),
    {
        proof {
            reveal_strlit("");
        }
        if self.messages.len() == 0 {
            ""
        } else {
            self.messages[self.messages.len() - 1].timestamp.as_str()
        }
    }
}

pub open spec fn has_number(n: Seq<char>) -> spec_fn(SmsMessage) -> bool {
    |m: SmsMessage| m.number@ == n
}

/// The messages with number `n`, in their order.
pub open spec fn messages_of(msgs: Seq<SmsMessage>, n: Seq<char>) -> Seq<SmsMessage> {
    msgs.filter(has_number(n))
}

/// Some conversation of `cs` is with number `n`.
pub open spec fn has_conversation(cs: Seq<Conversation>, n: Seq<char>) -> bool {
    exists|a: int| 0 <= a < cs.len() && #[trigger] cs[a].number@ == n
}

pub open spec fn distinct_numbers(cs: Seq<Conversation>) -> bool {
    forall|a: int, b: int|
        0 <= a < b < cs.len() ==> #[trigger] cs[a].number@ != #[trigger] cs[b].number@
}

pub open spec fn groups_of(msgs: Seq<SmsMessage>, cs: Seq<Conversation>) -> bool {
    &&& distinct_numbers(cs)
    &&& forall|a: int|
        0 <= a < cs.len() ==> (#[trigger] cs[a]).messages@ == messages_of(msgs, cs[a].number@)
    &&& forall|k: int| 0 <= k < msgs.len() ==> has_conversation(cs, (#[trigger] msgs[k]).number@)
    &&& forall|a: int| 0 <= a < cs.len() ==> (#[trigger] cs[a]).messages@.len() > 0
}

/// `a` is listed before `b`: its last message is later, or equally late and
/// its number sorts first.
pub open spec fn listed_before(a: Conversation, b: Conversation) -> bool {
    ||| str_lt(b.last_ts(), a.last_ts())
    ||| (a.last_ts() == b.last_ts() && str_lt(a.number@, b.number@))
}

pub open spec fn listed_in_order(cs: Seq<Conversation>) -> bool {
    forall|a: int, b: int| 0 <= a < b < cs.len() ==> listed_before(#[trigger] cs[a], #[trigger] cs[b])
}

/// The conversations made of `msgs`: one per number, each holding that
/// number's messages in timestamp order, listed most recent first.
pub open spec fn conversations_of(msgs: Seq<SmsMessage>, cs: Seq<Conversation>) -> bool {
    &&& distinct_numbers(cs)
    &&& forall|a: int|
        0 <= a < cs.len() ==> (#[trigger] cs[a]).messages@ == sort_by_time(
            messages_of(msgs, cs[a].number@),
        )
    &&& forall|k: int| 0 <= k < msgs.len() ==> has_conversation(cs, (#[trigger] msgs[k]).number@)
    &&& forall|a: int| 0 <= a < cs.len() ==> (#[trigger] cs[a]).messages@.len() > 0
    &&& listed_in_order(cs)
}

proof fn lemma_filter_push(s: Seq<SmsMessage>, m: SmsMessage, n: Seq<char>)
    ensures
        messages_of(s.push(m), n) == if m.number@ == n {
            messages_of(s, n).push(m)
        } else {
            messages_of(s, n)
        },
{
    reveal(Seq::filter);
    assert(s.push(m).drop_last() =~= s);
}

proof fn lemma_filter_none(s: Seq<SmsMessage>, n: Seq<char>)
    requires
        forall|k: int| 0 <= k < s.len() ==> (#[trigger] s[k]).number@ != n,
    ensures
        messages_of(s, n) == Seq::<SmsMessage>::empty(),
{
    let p = has_number(n);
    assert forall|k: int| 0 <= k < s.len() implies (|x: SmsMessage| !p(x))(#[trigger] s[k]) by {}
    s.lemma_all_neg_filter_empty(p);
    assert(messages_of(s, n) =~= Seq::<SmsMessage>::empty());
}

fn find_number(cs: &Vec<Conversation>, n: &String) -> (r: Option<usize>)
    ensures
        match r {
            Some(j) => j < cs.len() && cs@[j as int].number@ == n@,
            None => forall|a: int| 0 <= a < cs.len() ==> (#[trigger] cs@[a]).number@ != n@,
        },
{
    let mut j: usize = 0;
    while j < cs.len()
        invariant
            j <= cs.len(),
            forall|a: int| 0 <= a < j ==> (#[trigger] cs@[a]).number@ != n@,
        decreases cs.len() - j,
    {
        if cs[j].number == *n {
            return Some(j);
        }
        j = j + 1;
    }
    None
}

proof fn lemma_group_existing(pre: Seq<SmsMessage>, m: SmsMessage, old_cs: Seq<Conversation>, cs: Seq<Conversation>, j: int)
    requires
        groups_of(pre, old_cs),
        0 <= j < old_cs.len(),
        old_cs[j].number@ == m.number@,
        cs.len() == old_cs.len(),
        cs[j].number == old_cs[j].number,
        cs[j].messages@ == old_cs[j].messages@.push(m),
        forall|a: int| 0 <= a < cs.len() && a != j ==> cs[a] == old_cs[a],
    ensures
        groups_of(pre.push(m), cs),
{
    assert forall|a: int| 0 <= a < cs.len() implies (#[trigger] cs[a]).messages@
        == messages_of(pre.push(m), cs[a].number@) by {
        lemma_filter_push(pre, m, cs[a].number@);
        if a != j {
            assert(old_cs[a].number@ != old_cs[j].number@);
        }
    }
    assert forall|k: int| 0 <= k < pre.push(m).len() implies has_conversation(
        cs,
        (#[trigger] pre.push(m)[k]).number@,
    ) by {
        if k < pre.len() {
            assert(pre.push(m)[k] == pre[k]);
            assert(has_conversation(old_cs, pre[k].number@));
            let a = choose|a: int| 0 <= a < old_cs.len() && #[trigger] old_cs[a].number@ == pre[k].number@;
            assert(cs[a].number@ == old_cs[a].number@);
        } else {
            assert(cs[j].number@ == m.number@);
        }
    }
    assert forall|a: int, b: int| 0 <= a < b < cs.len() implies #[trigger] cs[a].number@
        != #[trigger] cs[b].number@ by {
        assert(cs[a].number@ == old_cs[a].number@);
        assert(cs[b].number@ == old_cs[b].number@);
    }
    assert forall|a: int| 0 <= a < cs.len() implies (#[trigger] cs[a]).messages@.len() > 0 by {
        if a != j {
            assert(cs[a] == old_cs[a]);
        }
    }
}

proof fn lemma_group_new(pre: Seq<SmsMessage>, m: SmsMessage, old_cs: Seq<Conversation>, cs: Seq<Conversation>)
    requires
        groups_of(pre, old_cs),
        forall|a: int| 0 <= a < old_cs.len() ==> (#[trigger] old_cs[a]).number@ != m.number@,
        cs.len() == old_cs.len() + 1,
        cs[old_cs.len() as int].number@ == m.number@,
        cs[old_cs.len() as int].messages@ == seq![m],
        forall|a: int| 0 <= a < old_cs.len() ==> cs[a] == old_cs[a],
    ensures
        groups_of(pre.push(m), cs),
{
    let n = m.number@;
    assert forall|k: int| 0 <= k < pre.len() implies (#[trigger] pre[k]).number@ != n by {
        assert(has_conversation(old_cs, pre[k].number@));
    }
    lemma_filter_none(pre, n);
    assert forall|a: int| 0 <= a < cs.len() implies (#[trigger] cs[a]).messages@
        == messages_of(pre.push(m), cs[a].number@) by {
        lemma_filter_push(pre, m, cs[a].number@);
        if a < old_cs.len() {
            assert(cs[a] == old_cs[a]);
        } else {
            assert(messages_of(pre, n).push(m) =~= seq![m]);
        }
    }
    assert forall|k: int| 0 <= k < pre.push(m).len() implies has_conversation(
        cs,
        (#[trigger] pre.push(m)[k]).number@,
    ) by {
        if k < pre.len() {
            assert(pre.push(m)[k] == pre[k]);
            assert(has_conversation(old_cs, pre[k].number@));
            let a = choose|a: int| 0 <= a < old_cs.len() && #[trigger] old_cs[a].number@ == pre[k].number@;
            assert(cs[a] == old_cs[a]);
        } else {
            assert(cs[old_cs.len() as int].number@ == m.number@);
        }
    }
    assert forall|a: int, b: int| 0 <= a < b < cs.len() implies #[trigger] cs[a].number@
        != #[trigger] cs[b].number@ by {
        assert(cs[a] == old_cs[a]);
        if b < old_cs.len() {
            assert(cs[b] == old_cs[b]);
        }
    }
    assert forall|a: int| 0 <= a < cs.len() implies (#[trigger] cs[a]).messages@.len() > 0 by {
        if a < old_cs.len() {
            assert(cs[a] == old_cs[a]);
        }
    }
}

/// Groups messages by number, each group in the order the messages came.
pub fn group_by_number(msgs: Vec<SmsMessage>) -> (cs: Vec<Conversation>)
    ensures
        groups_of(msgs@, cs@),
{
    let mut cs: Vec<Conversation> = Vec::new();
    let mut i: usize = 0;
    while i < msgs.len()
        invariant
            i <= msgs.len(),
            groups_of(msgs@.take(i as int), cs@),
        decreases msgs.len() - i,
    {
        let m = msgs[i].clone();
        let ghost pre = msgs@.take(i as int);
        let ghost old_cs = cs@;
        assert(msgs@.take(i + 1) =~= pre.push(m));
        match find_number(&cs, &m.number) {
            Some(j) => {
                cs[j].messages.push(m);
                proof {
                    lemma_group_existing(pre, m, old_cs, cs@, j as int);
                }
            },
            None => {
                let mut v: Vec<SmsMessage> = Vec::new();
                let num = m.number.clone();
                v.push(m);
                assert(v@ =~= seq![m]);
                cs.push(Conversation { number: num, messages: v });
                proof {
                    lemma_group_new(pre, m, old_cs, cs@);
                }
            },
        }
        i = i + 1;
    }
    assert(msgs@.take(msgs.len() as int) =~= msgs@);
    cs
}

// ---------------------------------------------------------------- listing order

pub proof fn lemma_listed_before(a: Conversation, b: Conversation, c: Conversation)
    ensures
        !listed_before(a, a),
        !(listed_before(a, b) && listed_before(b, a)),
        a.number@ != b.number@ ==> listed_before(a, b) || listed_before(b, a),
        listed_before(a, b) && listed_before(b, c) ==> listed_before(a, c),
{
    lemma_str_lt_irreflexive(a.last_ts());
    lemma_str_lt_irreflexive(a.number@);
    lemma_str_lt_total(a.last_ts(), b.last_ts());
    lemma_str_lt_total(a.number@, b.number@);
    lemma_str_lt_total(b.last_ts(), c.last_ts());
    lemma_str_lt_total(a.last_ts(), c.last_ts());
    if listed_before(a, b) && listed_before(b, c) {
        if str_lt(b.last_ts(), a.last_ts()) && str_lt(c.last_ts(), b.last_ts()) {
            lemma_str_lt_transitive(c.last_ts(), b.last_ts(), a.last_ts());
        } else if str_lt(a.number@, b.number@) && str_lt(b.number@, c.number@) {
            lemma_str_lt_transitive(a.number@, b.number@, c.number@);
        }
    }
}

fn strs_equal(a: &str, b: &str) -> (r: bool)
    ensures
        r == (a@ == b@),
{
    proof {
        lemma_str_lt_total(a@, b@);
        lemma_str_lt_irreflexive(a@);
    }
    !str_less(a, b) && !str_less(b, a)
}

fn listed_before_exec(a: &Conversation, b: &Conversation) -> (r: bool)
    ensures
        r == listed_before(*a, *b),
{
    let at = a.last_timestamp();
    let bt = b.last_timestamp();
    str_less(bt, at) || (strs_equal(at, bt) && str_less(a.number.as_str(), b.number.as_str()))
}

proof fn lemma_insert_listed(s: Seq<Conversation>, c: Conversation, j: int)
    requires
        0 <= j <= s.len(),
        listed_in_order(s),
        distinct_numbers(s),
        forall|a: int| 0 <= a < s.len() ==> (#[trigger] s[a]).number@ != c.number@,
        forall|b: int| j <= b < s.len() ==> listed_before(c, #[trigger] s[b]),
        j > 0 ==> listed_before(s[j - 1], c),
    ensures
        listed_in_order(s.insert(j, c)),
        distinct_numbers(s.insert(j, c)),
{
    let v = s.insert(j, c);
    assert forall|a: int, b: int| 0 <= a < b < v.len() implies listed_before(
        #[trigger] v[a],
        #[trigger] v[b],
    ) by {
        if b < j {
            assert(v[a] == s[a] && v[b] == s[b]);
        } else if b == j {
            assert(v[a] == s[a]);
            if a < j - 1 {
                lemma_listed_before(s[a], s[j - 1], c);
            }
        } else if a > j {
            assert(v[a] == s[a - 1] && v[b] == s[b - 1]);
        } else if a == j {
            assert(v[b] == s[b - 1]);
        } else {
            assert(v[a] == s[a] && v[b] == s[b - 1]);
            lemma_listed_before(s[a], c, s[b - 1]);
            if a < j - 1 {
                lemma_listed_before(s[a], s[j - 1], c);
            }
        }
    }
    lemma_insert_distinct(s, c, j);
}

proof fn lemma_insert_distinct(s: Seq<Conversation>, c: Conversation, j: int)
    requires
        0 <= j <= s.len(),
        distinct_numbers(s),
        forall|a: int| 0 <= a < s.len() ==> (#[trigger] s[a]).number@ != c.number@,
    ensures
        distinct_numbers(s.insert(j, c)),
{
    let v = s.insert(j, c);
    assert forall|a: int, b: int| 0 <= a < b < v.len() implies #[trigger] v[a].number@
        != #[trigger] v[b].number@ by {
        if b < j {
            assert(v[a] == s[a] && v[b] == s[b]);
        } else if b == j {
            assert(v[a] == s[a]);
        } else if a > j {
            assert(v[a] == s[a - 1] && v[b] == s[b - 1]);
        } else if a == j {
            assert(v[b] == s[b - 1]);
        } else {
            assert(v[a] == s[a] && v[b] == s[b - 1]);
        }
    }
}

fn insert_listed(v: &mut Vec<Conversation>, c: Conversation) -> (j: usize)
    requires
        listed_in_order(old(v)@),
        distinct_numbers(old(v)@),
        forall|a: int| 0 <= a < old(v)@.len() ==> (#[trigger] old(v)@[a]).number@ != c.number@,
    ensures
        j <= old(v)@.len(),
        final(v)@ == old(v)@.insert(j as int, c),
        listed_in_order(final(v)@),
        distinct_numbers(final(v)@),
{
    let ghost s = v@;
    let mut j: usize = v.len();
    while j > 0 && listed_before_exec(&c, &v[j - 1])
        invariant
            j <= v.len(),
            v@ == s,
            forall|b: int| j <= b < s.len() ==> listed_before(c, #[trigger] s[b]),
        decreases j,
    {
        j = j - 1;
    }
    proof {
        if j > 0 {
            lemma_listed_before(c, s[j - 1], c);
        }
    }
    v.insert(j, c);
    proof {
        lemma_insert_listed(s, c, j as int);
    }
    j
}

/// Each of `r` is one of the first `n` groups, put in order.
pub open spec fn each_from(r: Seq<Conversation>, groups: Seq<Conversation>, n: int) -> bool {
    forall|a: int|
        #![trigger r[a]]
        0 <= a < r.len() ==> exists|b: int|
            #![trigger groups[b]]
            0 <= b < n && sorted_from(r[a], groups[b])
}

/// Each of the first `n` groups is, put in order, one of `r`.
pub open spec fn each_into(r: Seq<Conversation>, groups: Seq<Conversation>, n: int) -> bool {
    forall|b: int|
        #![trigger groups[b]]
        0 <= b < n ==> exists|a: int|
            #![trigger r[a]]
            0 <= a < r.len() && sorted_from(r[a], groups[b])
}

/// `c` is group `g` with its messages put in timestamp order.
#[verifier::opaque]
pub open spec fn sorted_from(c: Conversation, g: Conversation) -> bool {
    c.number@ == g.number@ && c.messages@ == sort_by_time(g.messages@)
}

proof fn lemma_build_result(m: Seq<SmsMessage>, groups: Seq<Conversation>, r: Seq<Conversation>)
    requires
        groups_of(m, groups),
        listed_in_order(r),
        distinct_numbers(r),
        each_from(r, groups, groups.len() as int),
        each_into(r, groups, groups.len() as int),
    ensures
        conversations_of(m, r),
{
    reveal(sorted_from);
    assert forall|a: int| 0 <= a < r.len() implies (#[trigger] r[a]).messages@ == sort_by_time(
        messages_of(m, r[a].number@),
    ) by {
        let b = choose|b: int| 0 <= b < groups.len() && sorted_from(r[a], #[trigger] groups[b]);
        assert(groups[b].messages@ == messages_of(m, groups[b].number@));
    }
    assert forall|a: int| 0 <= a < r.len() implies (#[trigger] r[a]).messages@.len() > 0 by {
        let b = choose|b: int| 0 <= b < groups.len() && sorted_from(r[a], #[trigger] groups[b]);
        law_sort_by_time(groups[b].messages@);
        assert(groups[b].messages@.len() > 0);
    }
    assert forall|k: int| 0 <= k < m.len() implies has_conversation(r, (#[trigger] m[k]).number@) by {
        assert(has_conversation(groups, m[k].number@));
        let b = choose|b: int| 0 <= b < groups.len() && #[trigger] groups[b].number@ == m[k].number@;
        let a = choose|a: int| 0 <= a < r.len() && sorted_from(#[trigger] r[a], groups[b]);
        assert(r[a].number@ == m[k].number@);
    }
    assert(forall|a: int|
        0 <= a < r.len() ==> (#[trigger] r[a]).messages@ == sort_by_time(
            messages_of(m, r[a].number@),
        ));
    assert(forall|a: int| 0 <= a < r.len() ==> (#[trigger] r[a]).messages@.len() > 0);
}

proof fn lemma_build_step(groups: Seq<Conversation>, old_r: Seq<Conversation>, c: Conversation, i: int, j: int)
    requires
        0 <= i < groups.len(),
        0 <= j <= old_r.len(),
        sorted_from(c, groups[i]),
        each_from(old_r, groups, i),
        each_into(old_r, groups, i),
    ensures
        each_from(old_r.insert(j, c), groups, i + 1),
        each_into(old_r.insert(j, c), groups, i + 1),
{
    let r = old_r.insert(j, c);
    assert forall|a: int| #![trigger r[a]] 0 <= a < r.len() implies exists|b: int|
        #![trigger groups[b]]
        0 <= b < i + 1 && sorted_from(r[a], groups[b]) by {
        if a < j {
            assert(r[a] == old_r[a]);
            let b = choose|b: int| 0 <= b < i && sorted_from(old_r[a], #[trigger] groups[b]);
            assert(sorted_from(r[a], groups[b]));
        } else if a == j {
            assert(sorted_from(r[a], groups[i]));
        } else {
            assert(r[a] == old_r[a - 1]);
            let b = choose|b: int| 0 <= b < i && sorted_from(old_r[a - 1], #[trigger] groups[b]);
            assert(sorted_from(r[a], groups[b]));
        }
    }
    assert forall|b: int| #![trigger groups[b]] 0 <= b < i + 1 implies exists|a: int|
        #![trigger r[a]]
        0 <= a < r.len() && sorted_from(r[a], groups[b]) by {
        if b < i {
            let a = choose|a: int| 0 <= a < old_r.len() && sorted_from(#[trigger] old_r[a], groups[b]);
            if a < j {
                assert(r[a] == old_r[a]);
                assert(sorted_from(r[a], groups[b]));
            } else {
                assert(r[a + 1] == old_r[a]);
                assert(sorted_from(r[a + 1], groups[b]));
            }
        } else {
            assert(sorted_from(r[j], groups[b]));
        }
    }
}

fn copy_messages(v: &Vec<SmsMessage>) -> (r: Vec<SmsMessage>)
    ensures
        r@ == v@,
{
    let r = v.clone();
    proof {
        assert forall|i: int| 0 <= i < r.len() implies r@[i] == v@[i] by {
            assert(cloned::<SmsMessage>(v[i], r[i]));
        }
        assert(r@ =~= v@);
    }
    r
}

/// The conversations made of `msgs`: grouped by number, each in timestamp
/// order, listed with the most recent conversation first.
pub fn build_conversations(msgs: Vec<SmsMessage>) -> (r: Vec<Conversation>)
    ensures
        conversations_of(msgs@, r@),
{
    let ghost m = msgs@;
    let groups = group_by_number(msgs);
    let mut r: Vec<Conversation> = Vec::new();
    let mut i: usize = 0;
    while i < groups.len()
        invariant
            i <= groups.len(),
            groups_of(m, groups@),
            listed_in_order(r@),
            distinct_numbers(r@),
            each_from(r@, groups@, i as int),
            each_into(r@, groups@, i as int),
        decreases groups.len() - i,
    {
        let c = Conversation {
            number: groups[i].number.clone(),
            messages: sort_messages(copy_messages(&groups[i].messages)),
        };
        assert(sorted_from(c, groups@[i as int])) by {
            reveal(sorted_from);
        }
        proof {
            assert forall|a: int| 0 <= a < r@.len() implies (#[trigger] r@[a]).number@
                != c.number@ by {
                reveal(sorted_from);
                let b = choose|b: int| 0 <= b < i && sorted_from(r@[a], #[trigger] groups@[b]);
                assert(groups@[b].number@ != groups@[i as int].number@);
            }
        }
        let ghost old_r = r@;
        let j = insert_listed(&mut r, c);
        proof {
            lemma_build_step(groups@, old_r, c, i as int, j as int);
        }
        i = i + 1;
    }
    proof {
        lemma_build_result(m, groups@, r@);
    }
    r
}

// ---------------------------------------------------------------- counting

/// Messages held by the conversations `cs`, all together.
pub open spec fn message_total(cs: Seq<Conversation>) -> nat
    decreases cs.len(),
{
    if cs.len() == 0 {
        0
    } else {
        message_total(cs.drop_last()) + cs.last().messages@.len()
    }
}

/// Messages of `msgs` whose number is one of `ns`, counted once per entry
/// of `ns`.
spec fn filtered_total(ns: Seq<Seq<char>>, msgs: Seq<SmsMessage>) -> nat
    decreases ns.len(),
{
    if ns.len() == 0 {
        0
    } else {
        filtered_total(ns.drop_last(), msgs) + messages_of(msgs, ns.last()).len()
    }
}

/// How often `x` occurs in `ns`.
spec fn occurrences(ns: Seq<Seq<char>>, x: Seq<char>) -> nat
    decreases ns.len(),
{
    if ns.len() == 0 {
        0
    } else {
        occurrences(ns.drop_last(), x) + if ns.last() == x {
            1nat
        } else {
            0nat
        }
    }
}

spec fn numbers(cs: Seq<Conversation>) -> Seq<Seq<char>> {
    cs.map_values(|c: Conversation| c.number@)
}

proof fn lemma_filtered_total_push(ns: Seq<Seq<char>>, msgs: Seq<SmsMessage>, m: SmsMessage)
    ensures
        filtered_total(ns, msgs.push(m)) == filtered_total(ns, msgs) + occurrences(ns, m.number@),
    decreases ns.len(),
{
    if ns.len() > 0 {
        lemma_filtered_total_push(ns.drop_last(), msgs, m);
        lemma_filter_push(msgs, m, ns.last());
    }
}

proof fn lemma_occurs_once(ns: Seq<Seq<char>>, x: Seq<char>)
    requires
        forall|a: int, b: int| 0 <= a < b < ns.len() ==> #[trigger] ns[a] != #[trigger] ns[b],
        exists|a: int| 0 <= a < ns.len() && #[trigger] ns[a] == x,
    ensures
        occurrences(ns, x) == 1,
    decreases ns.len(),
{
    let rest = ns.drop_last();
    if ns.last() == x {
        assert forall|a: int| 0 <= a < rest.len() implies #[trigger] rest[a] != x by {
            assert(ns[a] != ns[ns.len() - 1]);
        }
        lemma_occurs_never(rest, x);
    } else {
        let a = choose|a: int| 0 <= a < ns.len() && #[trigger] ns[a] == x;
        assert(rest[a] == x);
        assert forall|i: int, j: int| 0 <= i < j < rest.len() implies #[trigger] rest[i]
            != #[trigger] rest[j] by {
            assert(ns[i] != ns[j]);
        }
        lemma_occurs_once(rest, x);
    }
}

proof fn lemma_occurs_never(ns: Seq<Seq<char>>, x: Seq<char>)
    requires
        forall|a: int| 0 <= a < ns.len() ==> #[trigger] ns[a] != x,
    ensures
        occurrences(ns, x) == 0,
    decreases ns.len(),
{
    if ns.len() > 0 {
        let rest = ns.drop_last();
        assert forall|a: int| 0 <= a < rest.len() implies #[trigger] rest[a] != x by {
            assert(ns[a] != x);
        }
        lemma_occurs_never(rest, x);
    }
}

proof fn lemma_filtered_total(ns: Seq<Seq<char>>, msgs: Seq<SmsMessage>)
    requires
        forall|a: int, b: int| 0 <= a < b < ns.len() ==> #[trigger] ns[a] != #[trigger] ns[b],
        forall|k: int|
            0 <= k < msgs.len() ==> exists|a: int|
                0 <= a < ns.len() && #[trigger] ns[a] == (#[trigger] msgs[k]).number@,
    ensures
        filtered_total(ns, msgs) == msgs.len(),
    decreases msgs.len(),
{
    if msgs.len() == 0 {
        lemma_filtered_total_empty(ns, msgs);
    } else {
        let pre = msgs.drop_last();
        let m = msgs.last();
        assert forall|k: int| 0 <= k < pre.len() implies exists|a: int|
            0 <= a < ns.len() && #[trigger] ns[a] == (#[trigger] pre[k]).number@ by {
            assert(pre[k] == msgs[k]);
        }
        lemma_filtered_total(ns, pre);
        assert(msgs =~= pre.push(m));
        lemma_filtered_total_push(ns, pre, m);
        assert(msgs[msgs.len() - 1] == m);
        lemma_occurs_once(ns, m.number@);
    }
}

proof fn lemma_filtered_total_empty(ns: Seq<Seq<char>>, msgs: Seq<SmsMessage>)
    requires
        msgs.len() == 0,
    ensures
        filtered_total(ns, msgs) == 0,
    decreases ns.len(),
{
    if ns.len() > 0 {
        lemma_filtered_total_empty(ns.drop_last(), msgs);
        lemma_filter_none(msgs, ns.last());
    }
}

proof fn lemma_total_is_filtered(msgs: Seq<SmsMessage>, cs: Seq<Conversation>)
    requires
        forall|a: int|
            0 <= a < cs.len() ==> (#[trigger] cs[a]).messages@.len() == messages_of(
                msgs,
                cs[a].number@,
            ).len(),
    ensures
        message_total(cs) == filtered_total(numbers(cs), msgs),
    decreases cs.len(),
{
    if cs.len() > 0 {
        let rest = cs.drop_last();
        assert forall|a: int| 0 <= a < rest.len() implies (#[trigger] rest[a]).messages@.len()
            == messages_of(msgs, rest[a].number@).len() by {
            assert(rest[a] == cs[a]);
        }
        lemma_total_is_filtered(msgs, rest);
        assert(numbers(cs).drop_last() =~= numbers(rest));
        assert(cs[cs.len() - 1] == cs.last());
    }
}

/// Grouping loses and duplicates no message: the conversations made of
/// `msgs` hold as many messages as `msgs`.
pub proof fn law_grouping_keeps_every_message(msgs: Seq<SmsMessage>, cs: Seq<Conversation>)
    requires
        conversations_of(msgs, cs),
    ensures
        message_total(cs) == msgs.len(),
{
    assert forall|a: int| 0 <= a < cs.len() implies (#[trigger] cs[a]).messages@.len()
        == messages_of(msgs, cs[a].number@).len() by {
        law_sort_by_time(messages_of(msgs, cs[a].number@));
    }
    lemma_total_is_filtered(msgs, cs);
    let ns = numbers(cs);
    assert forall|a: int, b: int| 0 <= a < b < ns.len() implies #[trigger] ns[a] != #[trigger] ns[b] by {
        assert(cs[a].number@ != cs[b].number@);
    }
    assert forall|k: int| 0 <= k < msgs.len() implies exists|a: int|
        0 <= a < ns.len() && #[trigger] ns[a] == (#[trigger] msgs[k]).number@ by {
        assert(has_conversation(cs, msgs[k].number@));
        let a = choose|a: int| 0 <= a < cs.len() && #[trigger] cs[a].number@ == msgs[k].number@;
        assert(ns[a] == cs[a].number@);
    }
    lemma_filtered_total(ns, msgs);
}

} // verus!
