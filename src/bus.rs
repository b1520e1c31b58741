//! Topic matching for subscriptions: an exact topic, or a prefix pattern
//! ending in `/*`.
use vstd::prelude::*;

verus! {

/// Whether `pattern` ends in `/*`.
pub open spec fn is_prefix_pattern(pattern: Seq<char>) -> bool {
    pattern.len() >= 2 && pattern[pattern.len() - 2] == '/' && pattern[pattern.len() - 1] == '*'
}

/// Whether a subscription to `pattern` receives what is published to `topic`:
/// a pattern ending in `/*` matches every topic that starts with what precedes
/// the `/*`; any other pattern matches only itself.
pub open spec fn topic_matches(pattern: Seq<char>, topic: Seq<char>) -> bool {
    if is_prefix_pattern(pattern) {
        let prefix = pattern.take(pattern.len() - 2);
        topic.len() >= prefix.len() && topic.take(prefix.len() as int) == prefix
    } else {
        pattern == topic
    }
}

/// Decides whether a subscription to `pattern` receives a message published to `topic`.
pub fn matches(pattern: &str, topic: &str) -> (r: bool)
    ensures
        r == topic_matches(pattern@, topic@),
{
    let n = pattern.unicode_len();
    let m = topic.unicode_len();
    let prefixed = n >= 2 && pattern.get_char(n - 2) == '/' && pattern.get_char(n - 1) == '*';
    let len = if prefixed {
        n - 2
    } else {
        if n != m {
            return false;
        }
        n
    };
    if m < len {
        return false;
    }
    let mut i: usize = 0;
    while i < len
        invariant
            i <= len,
            len <= n,
            len <= m,
            n == pattern@.len(),
            m == topic@.len(),
            prefixed == is_prefix_pattern(pattern@),
            prefixed ==> len == n - 2,
            !prefixed ==> len == n && n == m,
            forall|j: int| 0 <= j < i ==> pattern@[j] == topic@[j],
        decreases len - i,
    {
        if pattern.get_char(i) != topic.get_char(i) {
            assert(topic@.take(len as int)[i as int] != pattern@.take(len as int)[i as int]);
            return false;
        }
        i = i + 1;
    }
    if prefixed {
        assert(topic@.take(len as int) =~= pattern@.take(len as int));
    } else {
        assert(pattern@ =~= topic@);
    }
    true
}

} // verus!
