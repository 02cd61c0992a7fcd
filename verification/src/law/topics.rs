//! Topics and filters, compared level by level.

use vstd::prelude::*;

use crate::topic;
use crate::topic::TopicError;

verus! {

/// Neither `+` nor `#` is in it.
pub open spec fn no_wildcard(s: Seq<u8>) -> bool {
    forall|k: int| 0 <= k < s.len() ==> #[trigger] s[k] != 0x2B && s[k] != 0x23
}

/// No `/` is in it.
pub open spec fn one_level(s: Seq<u8>) -> bool {
    forall|k: int| 0 <= k < s.len() ==> #[trigger] s[k] != 0x2F
}

/// Short enough to be sent, and not empty.
pub open spec fn sendable(s: Seq<u8>) -> bool {
    0 < s.len() <= 65_535
}

/// Where the level that begins at a position ends.
pub open spec fn level_end(s: Seq<u8>, i: int) -> int
    decreases s.len() - i,
{
    if i >= s.len() {
        s.len() as int
    } else if s[i] == 0x2F {
        i
    } else {
        level_end(s, i + 1)
    }
}

/// The topic from one level on is matched by the filter from one level on.
///
/// `+` stands for any one level, and `#`, which is the last, for all that are
/// left and for none.
pub open spec fn by_levels(topic: Seq<u8>, i: int, filter: Seq<u8>, j: int) -> bool
    decreases filter.len() - j,
{
    let topic_end = level_end(topic, i);
    let filter_end = level_end(filter, j);
    let level = filter.subrange(j, filter_end);
    if j > filter.len() || filter_end < j {
        false
    } else if level == seq![0x23u8] && filter_end == filter.len() {
        true
    } else if level != seq![0x2Bu8] && level != topic.subrange(i, topic_end) {
        false
    } else if topic_end == topic.len() {
        filter_end == filter.len() || filter.skip(filter_end) == seq![0x2Fu8, 0x23u8]
    } else {
        filter_end < filter.len() && by_levels(topic, topic_end + 1, filter, filter_end + 1)
    }
}

/// Every wildcard has a level to itself, and `#` is the last.
pub open spec fn well_placed(filter: Seq<u8>) -> bool {
    forall|k: int|
        0 <= k < filter.len() && (#[trigger] filter[k] == 0x2B || filter[k] == 0x23) ==> {
            &&& k == 0 || filter[k - 1] == 0x2F
            &&& k == filter.len() - 1 || (filter[k] == 0x2B && filter[k + 1] == 0x2F)
        }
}

/// It ends in `+/#`.
pub open spec fn ends_in_plus_hash(filter: Seq<u8>) -> bool {
    filter.len() >= 3 && filter[filter.len() - 3] == 0x2B && filter[filter.len() - 2] == 0x2F
        && filter[filter.len() - 1] == 0x23
}

/// **Law.** A topic is matched by a filter exactly if it is so level by level,
/// unless it begins with `$` and the filter with a wildcard. Left out are a topic
/// that ends in `/` and a filter that ends in `+/#`.
pub proof fn law_levels_decide(topic: Seq<u8>, filter: Seq<u8>)
    requires
        sendable(topic),
        sendable(filter),
        no_wildcard(topic),
        well_placed(filter),
        topic.last() != 0x2F,
        !ends_in_plus_hash(filter),
    ensures
        topic::topic_matches(topic, filter) == Ok::<bool, TopicError>(
            by_levels(topic, 0, filter, 0) && !(topic[0] == 0x24 && (filter[0] == 0x2B || filter[0]
                == 0x23)),
        ),
{
    lemma_levels(topic, filter, 0, 0);
}

/// **Law.** A filter without wildcards matches the topic that it is, and no
/// other.
pub proof fn law_no_wildcard_matches_itself(topic: Seq<u8>, filter: Seq<u8>)
    requires
        sendable(topic),
        sendable(filter),
        no_wildcard(filter),
    ensures
        topic::topic_matches(topic, filter) == Ok::<bool, TopicError>(topic == filter),
{
    assert(topic.take(0) =~= filter.take(0));
    lemma_literal_only(topic, filter, 0);
}

/// **Law.** `t/#` matches `t` itself and every topic below it, and nothing else.
pub proof fn law_hash_takes_all_below(t: Seq<u8>, topic: Seq<u8>)
    requires
        t.len() > 0,
        t.len() + 2 <= 65_535,
        no_wildcard(t),
        sendable(topic),
        no_wildcard(topic),
    ensures
        topic::topic_matches(topic, t + seq![0x2Fu8, 0x23u8]) == Ok::<bool, TopicError>(
            topic == t || (t + seq![0x2Fu8]).is_prefix_of(topic),
        ),
{
    assert(topic.take(0) =~= (t + seq![0x2Fu8]).take(0));
    lemma_hash(t, topic, 0);
}

/// **Law.** `t/+` matches every topic that is `t` with one more level, and
/// nothing else. That level may be empty.
pub proof fn law_plus_takes_one_level(t: Seq<u8>, topic: Seq<u8>)
    requires
        t.len() > 0,
        t.len() + 2 <= 65_535,
        no_wildcard(t),
        sendable(topic),
        no_wildcard(topic),
    ensures
        topic::topic_matches(topic, t + seq![0x2Fu8, 0x2Bu8]) == Ok::<bool, TopicError>(
            (t + seq![0x2Fu8]).is_prefix_of(topic) && one_level(topic.skip(t.len() as int + 1)),
        ),
{
    assert(topic.take(0) =~= (t + seq![0x2Fu8]).take(0));
    lemma_plus(t, topic, 0);
}

/// **Law.** `t/+/u` matches `t/x/u` for every single level `x`.
pub proof fn law_plus_in_the_middle(t: Seq<u8>, x: Seq<u8>, u: Seq<u8>)
    requires
        t.len() > 0,
        u.len() > 0,
        t.len() + x.len() + u.len() + 3 <= 65_535,
        no_wildcard(t),
        no_wildcard(x),
        no_wildcard(u),
        one_level(x),
        u.last() != 0x2F,
    ensures
        topic::topic_matches(
            t + seq![0x2Fu8] + x + seq![0x2Fu8] + u,
            t + seq![0x2Fu8, 0x2Bu8, 0x2Fu8] + u,
        ) == Ok::<bool, TopicError>(true),
{
    let a = t + seq![0x2Fu8] + x + seq![0x2Fu8] + u;
    let f = t + seq![0x2Fu8, 0x2Bu8, 0x2Fu8] + u;
    let n = t.len() as int;
    assert(a.take(n + 1) =~= f.take(n + 1));
    lemma_same_front(a, f, n + 1, 0);
    assert(topic::follows(a, f, n + 1, n + 1)) by {
        lemma_next_slash(a, n + 1, n + 1 + x.len());
        assert(f[n + 1] == 0x2B && f[n] == 0x2F && f[n + 2] == 0x2F);
        assert(a[n + 1] != 0x2B) by {
            if x.len() > 0 {
                assert(a[n + 1] == x[0]);
            } else {
                assert(a[n + 1] == 0x2F);
            }
        }
        let from = n + 2 + x.len();
        assert(a.skip(from) =~= u);
        assert(f.skip(n + 3) =~= u);
        lemma_same_tail(a, f, from, n + 3);
    }
}

/// **Law.** What cannot be sent cannot be compared: an empty side, or one that is
/// too long.
pub proof fn law_only_sendable_is_compared(topic: Seq<u8>, filter: Seq<u8>)
    ensures
        topic::topic_matches(topic, filter) is Err == !(sendable(topic) && sendable(filter)),
{
}

/// The two searches for a slash agree.
proof fn lemma_level_end(s: Seq<u8>, i: int)
    requires
        0 <= i <= s.len(),
    ensures
        level_end(s, i) == topic::next_slash(s, i),
        i <= level_end(s, i) <= s.len(),
        level_end(s, i) < s.len() ==> s[level_end(s, i)] == 0x2F,
        forall|k: int| i <= k < level_end(s, i) ==> #[trigger] s[k] != 0x2F,
    decreases s.len() - i,
{
    if i < s.len() && s[i] != 0x2F {
        lemma_level_end(s, i + 1);
    }
}

/// Where a slash comes next.
proof fn lemma_next_slash(s: Seq<u8>, i: int, end: int)
    requires
        0 <= i <= end < s.len(),
        s[end] == 0x2F,
        forall|k: int| i <= k < end ==> #[trigger] s[k] != 0x2F,
    ensures
        topic::next_slash(s, i) == end,
    decreases end - i,
{
    if i < end {
        assert(s[i] != 0x2F);
        lemma_next_slash(s, i + 1, end);
    }
}

/// A front that the two share may be passed over.
proof fn lemma_same_front(topic: Seq<u8>, filter: Seq<u8>, n: int, k: int)
    requires
        0 <= k <= n <= topic.len(),
        n <= filter.len(),
        topic.take(n) == filter.take(n),
    ensures
        topic::follows(topic, filter, n, n) ==> topic::follows(topic, filter, k, k),
    decreases n - k,
{
    if k < n {
        assert(topic.take(n)[k] == topic[k]);
        assert(filter.take(n)[k] == filter[k]);
        lemma_same_front(topic, filter, n, k + 1);
    }
}

/// What is the same to the end matches.
proof fn lemma_same_tail(topic: Seq<u8>, filter: Seq<u8>, i: int, j: int)
    requires
        0 <= i <= topic.len(),
        0 <= j <= filter.len(),
        topic.skip(i) == filter.skip(j),
    ensures
        topic::follows(topic, filter, i, j),
    decreases topic.len() - i,
{
    assert(topic.skip(i).len() == topic.len() - i);
    assert(filter.skip(j).len() == filter.len() - j);
    if i < topic.len() {
        assert(topic.skip(i)[0] == topic[i]);
        assert(filter.skip(j)[0] == filter[j]);
        assert(topic.skip(i + 1) =~= topic.skip(i).skip(1));
        assert(filter.skip(j + 1) =~= filter.skip(j).skip(1));
        lemma_same_tail(topic, filter, i + 1, j + 1);
    }
}

/// Without wildcards only the same bytes match.
proof fn lemma_literal_only(topic: Seq<u8>, filter: Seq<u8>, k: int)
    requires
        0 <= k <= topic.len(),
        k <= filter.len(),
        topic.take(k) == filter.take(k),
        no_wildcard(filter),
    ensures
        topic::follows(topic, filter, k, k) == (topic == filter),
    decreases filter.len() - k,
{
    if k < topic.len() && k < filter.len() {
        assert(filter[k] != 0x2B && filter[k] != 0x23);
        if topic[k] == filter[k] {
            assert(topic.take(k + 1) =~= topic.take(k).push(topic[k]));
            assert(filter.take(k + 1) =~= filter.take(k).push(filter[k]));
            lemma_literal_only(topic, filter, k + 1);
            if k + 2 < filter.len() {
                assert(filter[k + 2] != 0x23);
            }
            if k + 1 < filter.len() {
                assert(filter[k + 1] != 0x23 && filter[k + 1] != 0x2B);
            }
        }
    } else if topic.len() == filter.len() {
        assert(topic =~= topic.take(k));
        assert(filter =~= filter.take(k));
    }
}

/// `t/#`, from a position on.
proof fn lemma_hash(t: Seq<u8>, topic: Seq<u8>, k: int)
    requires
        t.len() > 0,
        no_wildcard(t),
        no_wildcard(topic),
        0 <= k <= topic.len(),
        k <= t.len() + 1,
        topic.len() > 0,
        topic.take(k) == (t + seq![0x2Fu8]).take(k),
        k == topic.len() ==> k > t.len() + 1 || k < t.len(),
    ensures
        topic::follows(topic, t + seq![0x2Fu8, 0x23u8], k, k) == (topic == t || (t
            + seq![0x2Fu8]).is_prefix_of(topic)),
    decreases t.len() + 1 - k,
{
    let f = t + seq![0x2Fu8, 0x23u8];
    let p = t + seq![0x2Fu8];
    let n = t.len() as int;
    assert(f[n] == 0x2F && f[n + 1] == 0x23);
    if k == topic.len() {
        assert(topic =~= topic.take(k));
        assert(!p.is_prefix_of(topic));
    } else if k == n + 1 {
        assert(topic[k] != 0x23 && topic[k] != 0x2B);
        assert(topic.take(n + 1) =~= p);
        assert(p.is_prefix_of(topic));
    } else {
        assert(f[k] == p[k]);
        if k < n {
            assert(t[k] == f[k]);
        }
        if topic[k] == f[k] {
            assert(topic.take(k + 1) =~= topic.take(k).push(topic[k]));
            assert(p.take(k + 1) =~= p.take(k).push(p[k]));
            assert(k + 2 < n ==> f[k + 2] == t[k + 2]);
            assert(k + 1 < n ==> f[k + 1] == t[k + 1]);
            if k == topic.len() - 1 {
                assert(topic =~= topic.take(k + 1));
                if k == n - 1 {
                    assert(topic =~= t);
                } else if k == n {
                    assert(topic =~= p);
                } else {
                    assert(!topic::ends_in_wildcard(f, k));
                    lemma_hash(t, topic, k + 1);
                }
            } else {
                lemma_hash(t, topic, k + 1);
            }
        } else {
            assert(topic != t) by {
                if topic == t {
                    assert(k < n);
                }
            }
            assert(!p.is_prefix_of(topic)) by {
                if p.is_prefix_of(topic) {
                    assert(topic[k] == p[k]);
                }
            }
        }
    }
}

/// `t/+`, from a position on.
proof fn lemma_plus(t: Seq<u8>, topic: Seq<u8>, k: int)
    requires
        t.len() > 0,
        no_wildcard(t),
        no_wildcard(topic),
        0 <= k <= topic.len(),
        k <= t.len() + 1,
        topic.len() > 0,
        topic.take(k) == (t + seq![0x2Fu8]).take(k),
        k == topic.len() ==> k <= t.len(),
    ensures
        topic::follows(topic, t + seq![0x2Fu8, 0x2Bu8], k, k) == ((t + seq![
            0x2Fu8,
        ]).is_prefix_of(topic) && one_level(topic.skip(t.len() as int + 1))),
    decreases t.len() + 1 - k,
{
    let f = t + seq![0x2Fu8, 0x2Bu8];
    let p = t + seq![0x2Fu8];
    let n = t.len() as int;
    assert(f[n] == 0x2F && f[n + 1] == 0x2B);
    if k == topic.len() {
        assert(topic =~= topic.take(k));
        assert(!p.is_prefix_of(topic));
    } else if k == n + 1 {
        let x = topic.skip(n + 1);
        assert(topic[k] != 0x23 && topic[k] != 0x2B);
        assert(topic.take(n + 1) =~= p);
        assert(p.is_prefix_of(topic));
        lemma_level_end(topic, k);
        let end = level_end(topic, k);
        if end < topic.len() {
            assert(x[end - k] == 0x2F);
        } else {
            assert forall|i: int| 0 <= i < x.len() implies #[trigger] x[i] != 0x2F by {
                assert(x[i] == topic[k + i]);
            }
        }
    } else {
        assert(f[k] == p[k]);
        if k < n {
            assert(t[k] == f[k]);
        }
        if topic[k] == f[k] {
            assert(topic.take(k + 1) =~= topic.take(k).push(topic[k]));
            assert(p.take(k + 1) =~= p.take(k).push(p[k]));
            assert(k + 2 < n ==> f[k + 2] == t[k + 2]);
            assert(k + 1 < n ==> f[k + 1] == t[k + 1]);
            if k == topic.len() - 1 {
                assert(topic =~= topic.take(k + 1));
                if k == n {
                    assert(topic =~= p);
                    assert(topic.skip(n + 1) =~= Seq::<u8>::empty());
                } else {
                    assert(!topic::ends_in_wildcard(f, k));
                    lemma_plus(t, topic, k + 1);
                }
            } else {
                lemma_plus(t, topic, k + 1);
            }
        } else {
            assert(!p.is_prefix_of(topic)) by {
                if p.is_prefix_of(topic) {
                    assert(topic[k] == p[k]);
                }
            }
        }
    }
}

/// Level by level is what the comparison of bytes comes to.
proof fn lemma_levels(topic: Seq<u8>, filter: Seq<u8>, i: int, j: int)
    requires
        no_wildcard(topic),
        well_placed(filter),
        topic.len() > 0,
        topic.last() != 0x2F,
        !ends_in_plus_hash(filter),
        0 <= i < topic.len(),
        0 <= j <= filter.len(),
        j == 0 || filter[j - 1] == 0x2F,
    ensures
        topic::follows(topic, filter, i, j) == by_levels(topic, i, filter, j),
    decreases filter.len() - j,
{
    let te = level_end(topic, i);
    let fe = level_end(filter, j);
    let level = filter.subrange(j, fe);
    lemma_level_end(topic, i);
    lemma_level_end(filter, j);
    assert(topic[i] != 0x2B && topic[i] != 0x23);
    if te < topic.len() {
        assert(te + 1 < topic.len());
        if fe < filter.len() {
            lemma_levels(topic, filter, te + 1, fe + 1);
        }
    }
    if j < filter.len() && filter[j] == 0x23 {
        assert(level =~= seq![0x23u8]);
    } else if j < filter.len() && filter[j] == 0x2B {
        if j + 1 < filter.len() {
            assert(level_end(filter, j + 1) == j + 1);
        }
        assert(level =~= seq![0x2Bu8]);
        assert(level[0] != 0x23);
        if te == topic.len() && fe < filter.len() {
            assert(filter.skip(fe) != seq![0x2Fu8, 0x23u8]) by {
                if filter.skip(fe) == seq![0x2Fu8, 0x23u8] {
                    lemma_two(filter, fe, 0x23);
                }
            }
        }
    } else {
        assert forall|k: int| j <= k < fe implies #[trigger] filter[k] != 0x2B && filter[k]
            != 0x23 by {
            if k > j && (filter[k] == 0x2B || filter[k] == 0x23) {
                assert(filter[k - 1] == 0x2F);
            }
        }
        assert(level != seq![0x23u8]) by {
            if level == seq![0x23u8] {
                assert(level.len() == fe - j);
                assert(seq![0x23u8].len() == 1);
                assert(level[0] == filter[j]);
            }
        }
        assert(level != seq![0x2Bu8]) by {
            if level == seq![0x2Bu8] {
                assert(level.len() == fe - j);
                assert(seq![0x2Bu8].len() == 1);
                assert(level[0] == filter[j]);
            }
        }
        assert(topic.subrange(i, i) =~= filter.subrange(j, j));
        lemma_literal_level(topic, filter, i, j, 0);
    }
}

/// A slash and one byte more, at the end.
proof fn lemma_two(s: Seq<u8>, at: int, byte: u8)
    requires
        0 <= at <= s.len(),
        s.skip(at) == seq![0x2Fu8, byte],
    ensures
        s.len() == at + 2,
        s[at] == 0x2F,
        s[at + 1] == byte,
{
    assert(s.skip(at).len() == s.len() - at);
    assert(seq![0x2Fu8, byte].len() == 2);
    assert(s.skip(at)[0] == s[at]);
    assert(s.skip(at)[1] == s[at + 1]);
}

/// A level without wildcards, from a position in it on.
proof fn lemma_literal_level(topic: Seq<u8>, filter: Seq<u8>, i: int, j: int, p: int)
    requires
        0 <= i < topic.len(),
        0 <= j <= filter.len(),
        topic.last() != 0x2F,
        0 <= p,
        i + p <= level_end(topic, i),
        j + p <= level_end(filter, j),
        i + p == topic.len() ==> p == 0,
        forall|k: int|
            j <= k < level_end(filter, j) ==> #[trigger] filter[k] != 0x2B && filter[k] != 0x23,
        topic.subrange(i, i + p) == filter.subrange(j, j + p),
    ensures
        ({
            let te = level_end(topic, i);
            let fe = level_end(filter, j);
            topic::follows(topic, filter, i + p, j + p) == (filter.subrange(j, fe)
                == topic.subrange(i, te) && if te == topic.len() {
                fe == filter.len() || filter.skip(fe) == seq![0x2Fu8, 0x23u8]
            } else {
                fe < filter.len() && topic::follows(topic, filter, te + 1, fe + 1)
            })
        }),
    decreases level_end(topic, i) - i - p,
{
    let te = level_end(topic, i);
    let fe = level_end(filter, j);
    lemma_level_end(topic, i);
    lemma_level_end(filter, j);
    let a = topic.subrange(i, te);
    let b = filter.subrange(j, fe);
    if i + p == te && j + p == fe {
        assert(te < topic.len());
        assert(te != topic.len() - 1);
        assert(a == b);
    } else if i + p == te || j + p == fe {
        assert(a.len() != b.len());
        if j + p < fe {
            assert(filter[j + p] != 0x2B && filter[j + p] != 0x23);
            assert(filter[j + p] != 0x2F);
        } else {
            assert(topic[i + p] != 0x2F);
        }
        assert(!topic::follows(topic, filter, i + p, j + p));
    } else if topic[i + p] != filter[j + p] {
        assert(a[p] != b[p]);
        assert(a != b);
        assert(filter[j + p] != 0x2B && filter[j + p] != 0x23);
    } else {
        assert(topic.subrange(i, i + p + 1) =~= topic.subrange(i, i + p).push(topic[i + p]));
        assert(filter.subrange(j, j + p + 1) =~= filter.subrange(j, j + p).push(filter[j + p]));
        let ends = topic::ends_in_wildcard(filter, j + p);
        if i + p == topic.len() - 1 {
            assert(te == topic.len());
            assert(filter[j + p] != 0x2F);
            assert(topic::follows(topic, filter, i + p + 1, j + p + 1) == (j + p + 1
                == filter.len()));
            if ends {
                assert(level_end(filter, j + p + 1) == j + p + 1);
                lemma_level_end_from(filter, j, j + p + 1);
                assert(fe == j + p + 1);
                assert(a =~= topic.subrange(i, i + p + 1));
                assert(b =~= filter.subrange(j, j + p + 1));
                assert(filter.skip(fe) =~= seq![0x2Fu8, 0x23u8]);
            } else if fe == j + p + 1 {
                assert(a =~= topic.subrange(i, i + p + 1));
                assert(b =~= filter.subrange(j, j + p + 1));
                if filter.skip(fe) == seq![0x2Fu8, 0x23u8] {
                    lemma_two(filter, fe, 0x23);
                }
            } else {
                assert(a.len() != b.len());
            }
        } else {
            lemma_literal_level(topic, filter, i, j, p + 1);
        }
    }
}

/// The end of a level, found from further on.
proof fn lemma_level_end_from(s: Seq<u8>, i: int, k: int)
    requires
        0 <= i <= k <= level_end(s, i) || (0 <= i <= k <= s.len() && level_end(s, k) == k && (
        forall|m: int| i <= m < k ==> #[trigger] s[m] != 0x2F)),
        i <= s.len(),
    ensures
        level_end(s, k) == level_end(s, i),
    decreases k - i,
{
    lemma_level_end(s, i);
    if i < k {
        assert(s[i] != 0x2F);
        lemma_level_end_from(s, i + 1, k);
    }
}

} // verus!
