//! Locators of the form `scheme:[service.]label.label`.
//!
//! A long name is two labels joined by a dot. A locator names a long name and,
//! before it, optionally one of its services; a label is never empty and holds no
//! dot.

use crate::errors::DnsError;
use vstd::prelude::*;
use vstd::string::*;

verus! {

/// The scheme that locators carry.
pub const URL_SCHEME: &'static str = "scheme";

/// The service that a locator without a service label refers to.
pub const DEFAULT_SERVICE: &'static str = "www";

/// A label: not empty, and without a dot.
pub open spec fn is_label(s: Seq<char>) -> bool {
    s.len() > 0 && forall|i: int| 0 <= i < s.len() ==> s[i] != '.'
}

/// Two texts joined by a dot.
pub open spec fn joined(first: Seq<char>, second: Seq<char>) -> Seq<char> {
    first + seq!['.'] + second
}

/// A long name: two labels joined by a dot.
pub open spec fn is_long_name(s: Seq<char>) -> bool {
    exists|first: Seq<char>, second: Seq<char>|
        is_label(first) && is_label(second) && s == #[trigger] joined(first, second)
}

/// The positions of the dots in a text, in rising order.
pub open spec fn dot_positions(s: Seq<char>) -> Seq<int>
    decreases s.len(),
{
    if s.len() == 0 {
        Seq::empty()
    } else if s.last() == '.' {
        dot_positions(s.drop_last()).push(s.len() - 1)
    } else {
        dot_positions(s.drop_last())
    }
}

/// What a text says after its scheme and colon, as a pair of long name and
/// service: with one dot, between two labels, the text is the long name and the
/// service is the default; with two dots, between three labels, the first label
/// is the service and the other two are the long name. Nothing else is a
/// locator.
pub open spec fn parsed_rest(rest: Seq<char>) -> Option<(Seq<char>, Seq<char>)> {
    let dots = dot_positions(rest);
    if dots.len() == 1 && 0 < dots[0] < rest.len() - 1 {
        Some((rest, DEFAULT_SERVICE@))
    } else if dots.len() == 2 && 0 < dots[0] && dots[0] + 1 < dots[1] && dots[1] < rest.len() - 1 {
        Some((rest.skip(dots[0] + 1), rest.take(dots[0])))
    } else {
        None
    }
}

/// What a text says as a locator of a scheme: it must begin with the scheme and
/// a colon, and go on as `parsed_rest` asks.
pub open spec fn parsed_url(raw: Seq<char>, scheme: Seq<char>) -> Option<(Seq<char>, Seq<char>)> {
    if raw.len() > scheme.len() && raw.take(scheme.len() as int) == scheme && raw[scheme.len() as int]
        == ':' {
        parsed_rest(raw.skip(scheme.len() + 1 as int))
    } else {
        None
    }
}

/// The dots of a text stand where they stand in each of its two parts.
pub proof fn lemma_dot_positions_concat(a: Seq<char>, b: Seq<char>)
    ensures
        dot_positions(a + b) == dot_positions(a) + dot_positions(b).map_values(
            |p: int| p + a.len(),
        ),
    decreases b.len(),
{
    let shift = |p: int| p + a.len();
    if b.len() == 0 {
        assert(a + b =~= a);
        assert(dot_positions(b).map_values(shift) =~= Seq::<int>::empty());
        assert(dot_positions(a) + Seq::<int>::empty() =~= dot_positions(a));
    } else {
        lemma_dot_positions_concat(a, b.drop_last());
        assert((a + b).drop_last() =~= a + b.drop_last());
        assert((a + b).last() == b.last());
        if b.last() == '.' {
            assert(dot_positions(b).map_values(shift) =~= dot_positions(b.drop_last()).map_values(
                shift,
            ).push(a.len() + b.len() - 1));
            assert(dot_positions(a + b) =~= dot_positions(a) + dot_positions(b).map_values(shift));
        }
    }
}

/// The dot positions of a text are the places of its dots, and no dot is missed.
pub proof fn lemma_dot_positions(s: Seq<char>)
    ensures
        forall|k: int|
            0 <= k < dot_positions(s).len() ==> 0 <= (#[trigger] dot_positions(s)[k]) < s.len()
                && s[dot_positions(s)[k]] == '.',
        forall|i: int|
            0 <= i < s.len() && s[i] == '.' ==> exists|k: int|
                0 <= k < dot_positions(s).len() && #[trigger] dot_positions(s)[k] == i,
    decreases s.len(),
{
    if s.len() > 0 {
        let front = s.drop_last();
        lemma_dot_positions(front);
        assert forall|i: int| 0 <= i < s.len() && s[i] == '.' implies exists|k: int|
            0 <= k < dot_positions(s).len() && #[trigger] dot_positions(s)[k] == i by {
            if i < s.len() - 1 {
                assert(front[i] == '.');
                let k = choose|k: int|
                    0 <= k < dot_positions(front).len() && #[trigger] dot_positions(front)[k] == i;
                assert(dot_positions(s)[k] == i);
            } else {
                assert(dot_positions(s)[dot_positions(s).len() - 1] == i);
            }
        }
    }
}

/// A text without a dot has no dot position.
pub proof fn lemma_no_dots(s: Seq<char>)
    requires
        forall|i: int| 0 <= i < s.len() ==> s[i] != '.',
    ensures
        dot_positions(s) == Seq::<int>::empty(),
    decreases s.len(),
{
    if s.len() > 0 {
        lemma_no_dots(s.drop_last());
    }
}

/// A dot alone has its dot at position 0.
pub proof fn lemma_dots_of_dot()
    ensures
        dot_positions(seq!['.']) == seq![0int],
{
    let dot = seq!['.'];
    assert(dot.drop_last() =~= Seq::<char>::empty());
    assert(dot_positions(Seq::<char>::empty()) =~= Seq::<int>::empty());
    assert(dot.last() == '.');
    assert(dot_positions(dot) =~= Seq::<int>::empty().push(0int));
}

/// The one dot of a text that is two labels joined by a dot.
pub proof fn lemma_dots_of_name(first: Seq<char>, second: Seq<char>)
    requires
        is_label(first),
        is_label(second),
    ensures
        dot_positions(first + seq!['.'] + second) == seq![first.len() as int],
{
    let dot = seq!['.'];
    lemma_no_dots(first);
    lemma_no_dots(second);
    lemma_dots_of_dot();
    lemma_dot_positions_concat(first, dot);
    lemma_dot_positions_concat(first + dot, second);
    assert(dot_positions(first + dot) =~= seq![first.len() as int]);
    assert(dot_positions(second).map_values(|p: int| p + (first + dot).len()) =~= Seq::<
        int,
    >::empty());
    assert(dot_positions(first + dot + second) =~= seq![first.len() as int]);
}

/// Reads a locator of the given scheme, and returns its long name and its
/// service.
pub fn parse_url_with_scheme(raw: &str, scheme: &str) -> (out: Result<(String, String), DnsError>)
    ensures
        match out {
            Ok((long_name, service)) => parsed_url(raw@, scheme@) == Some((long_name@, service@)),
            Err(e) => e == DnsError::MalformedUrl && parsed_url(raw@, scheme@) is None,
        },
{
    let n = raw.unicode_len();
    let m = scheme.unicode_len();
    if n <= m {
        return Err(DnsError::MalformedUrl);
    }
    let mut i: usize = 0;
    while i < m
        invariant
            i <= m,
            m < n,
            n == raw@.len(),
            m == scheme@.len(),
            forall|j: int| 0 <= j < i ==> raw@[j] == scheme@[j],
        decreases m - i,
    {
        if raw.get_char(i) != scheme.get_char(i) {
            assert(raw@.take(m as int)[i as int] != scheme@[i as int]);
            return Err(DnsError::MalformedUrl);
        }
        i += 1;
    }
    assert(raw@.take(m as int) =~= scheme@);
    if raw.get_char(m) != ':' {
        return Err(DnsError::MalformedUrl);
    }
    let start = m + 1;
    let ghost rest = raw@.skip(start as int);
    let mut count: usize = 0;
    let mut first: usize = 0;
    let mut second: usize = 0;
    let mut i: usize = start;
    assert(rest.take(0) =~= Seq::<char>::empty());
    while i < n
        invariant
            start <= i <= n,
            n == raw@.len(),
            rest == raw@.skip(start as int),
            count <= i - start,
            dot_positions(rest.take(i - start)).len() == count,
            count >= 1 ==> start <= first < i && dot_positions(rest.take(i - start))[0] == first
                - start,
            count >= 2 ==> first < second < i && dot_positions(rest.take(i - start))[1] == second
                - start,
        decreases n - i,
    {
        proof {
            let upto = rest.take(i + 1 - start);
            assert(upto.drop_last() =~= rest.take(i - start));
            assert(upto.last() == raw@[i as int]);
        }
        if raw.get_char(i) == '.' {
            if count == 0 {
                first = i;
            } else if count == 1 {
                second = i;
            }
            count += 1;
        }
        i += 1;
    }
    assert(rest.take(n - start) =~= rest);
    if count == 1 && start < first && first < n - 1 {
        let long_name = raw.substring_char(start, n);
        assert(long_name@ =~= rest);
        Ok((String::from_str(long_name), String::from_str(DEFAULT_SERVICE)))
    } else if count == 2 && start < first && first + 1 < second && second < n - 1 {
        let service = raw.substring_char(start, first);
        let long_name = raw.substring_char(first + 1, n);
        assert(service@ =~= rest.take(first - start));
        assert(long_name@ =~= rest.skip(first - start + 1));
        Ok((String::from_str(long_name), String::from_str(service)))
    } else {
        Err(DnsError::MalformedUrl)
    }
}

/// Reads a locator, and returns its long name and its service.
pub fn parse_url(raw: &str) -> (out: Result<(String, String), DnsError>)
    ensures
        match out {
            Ok((long_name, service)) => parsed_url(raw@, URL_SCHEME@) == Some(
                (long_name@, service@),
            ),
            Err(e) => e == DnsError::MalformedUrl && parsed_url(raw@, URL_SCHEME@) is None,
        },
{
    parse_url_with_scheme(raw, URL_SCHEME)
}

/// A locator with a service label names that service and the long name behind
/// it.
pub proof fn lemma_qualified_url(
    scheme: Seq<char>,
    service: Seq<char>,
    first: Seq<char>,
    second: Seq<char>,
)
    requires
        is_label(service),
        is_label(first),
        is_label(second),
    ensures
        parsed_url(
            scheme + seq![':'] + service + seq!['.'] + first + seq!['.'] + second,
            scheme,
        ) == Some((first + seq!['.'] + second, service)),
{
    let dot = seq!['.'];
    let raw = scheme + seq![':'] + service + dot + first + dot + second;
    let rest = service + dot + (first + dot + second);
    assert(raw.take(scheme.len() as int) =~= scheme);
    assert(raw.skip(scheme.len() + 1 as int) =~= rest);
    lemma_no_dots(service);
    lemma_dots_of_name(first, second);
    lemma_dots_of_dot();
    lemma_dot_positions_concat(service, dot);
    assert(dot_positions(service + dot) =~= seq![service.len() as int]);
    lemma_dot_positions_concat(service + dot, first + dot + second);
    assert(dot_positions(rest) =~= seq![service.len() as int, service.len() + 1 + first.len() as int]);
    assert(rest.skip(service.len() + 1 as int) =~= first + dot + second);
    assert(rest.take(service.len() as int) =~= service);
}

/// A locator without a service label names the default service of its long
/// name.
pub proof fn lemma_bare_url(scheme: Seq<char>, first: Seq<char>, second: Seq<char>)
    requires
        is_label(first),
        is_label(second),
    ensures
        parsed_url(scheme + seq![':'] + first + seq!['.'] + second, scheme) == Some(
            (first + seq!['.'] + second, DEFAULT_SERVICE@),
        ),
{
    let raw = scheme + seq![':'] + first + seq!['.'] + second;
    let rest = first + seq!['.'] + second;
    assert(raw.take(scheme.len() as int) =~= scheme);
    assert(raw.skip(scheme.len() + 1 as int) =~= rest);
    lemma_dots_of_name(first, second);
}

/// Whatever reads as a locator is the scheme, a colon, at most one service label
/// and a dot, and a long name; and where it holds no service label, the service
/// is the default.
pub proof fn lemma_parsed_url(raw: Seq<char>, scheme: Seq<char>)
    ensures
        parsed_url(raw, scheme) matches Some((long_name, service)) ==> is_long_name(long_name) && (
        (raw == scheme + seq![':'] + long_name && service == DEFAULT_SERVICE@) || (is_label(service)
            && raw == scheme + seq![':'] + joined(service, long_name))),
{
    if let Some((long_name, service)) = parsed_url(raw, scheme) {
        let rest = raw.skip(scheme.len() + 1 as int);
        let dots = dot_positions(rest);
        lemma_dot_positions(rest);
        assert(raw =~= scheme + seq![':'] + rest);
        let d = dots[0];
        assert(rest[d] == '.');
        if dots.len() == 1 {
            let first = rest.take(d);
            let second = rest.skip(d + 1);
            assert(rest =~= joined(first, second));
            assert(is_label(first) && is_label(second)) by {
                assert forall|i: int| 0 <= i < rest.len() && i != d implies rest[i] != '.' by {
                    if rest[i] == '.' {
                        let k = choose|k: int| 0 <= k < dots.len() && #[trigger] dots[k] == i;
                    }
                }
                assert forall|i: int| 0 <= i < first.len() implies first[i] != '.' by {
                    assert(first[i] == rest[i]);
                }
                assert forall|i: int| 0 <= i < second.len() implies second[i] != '.' by {
                    assert(second[i] == rest[i + d + 1]);
                }
            }
        } else {
            let e = dots[1];
            assert(rest[e] == '.');
            let first = rest.subrange(d + 1, e);
            let second = rest.skip(e + 1);
            assert(long_name =~= joined(first, second));
            assert(rest =~= joined(service, long_name));
            assert(is_label(service) && is_label(first) && is_label(second)) by {
                assert forall|i: int| 0 <= i < rest.len() && i != d && i != e implies rest[i]
                    != '.' by {
                    if rest[i] == '.' {
                        let k = choose|k: int| 0 <= k < dots.len() && #[trigger] dots[k] == i;
                    }
                }
                assert forall|i: int| 0 <= i < service.len() implies service[i] != '.' by {
                    assert(service[i] == rest[i]);
                }
                assert forall|i: int| 0 <= i < first.len() implies first[i] != '.' by {
                    assert(first[i] == rest[i + d + 1]);
                }
                assert forall|i: int| 0 <= i < second.len() implies second[i] != '.' by {
                    assert(second[i] == rest[i + e + 1]);
                }
            }
        }
    }
}

/// What follows the scheme must hold a dot: one label alone is no locator.
pub proof fn lemma_single_label_is_malformed(scheme: Seq<char>, label: Seq<char>)
    requires
        forall|i: int| 0 <= i < label.len() ==> label[i] != '.',
    ensures
        parsed_url(scheme + seq![':'] + label, scheme) is None,
{
    let raw = scheme + seq![':'] + label;
    assert(raw.skip(scheme.len() + 1 as int) =~= label);
    lemma_no_dots(label);
}

} // verus!
