//! Update metadata and the semantic-version comparison that decides whether
//! an update is offered. Fetching the metadata is an HTTP concern outside
//! this crate; the decision taken on what was fetched is verified here.

use vstd::prelude::*;

verus! {

/// What the application reports about available updates.
pub struct UpdateInfo {
    pub update_available: bool,
    pub latest_version: String,
    pub current_version: String,
    pub download_url: Option<String>,
    pub changelog: Option<String>,
    pub force_update: bool,
    pub release_notes: Option<String>,
    pub file_size: Option<u64>,
}

/// What the update endpoint answers.
pub struct UpdateResponse {
    pub version: String,
    pub download_url: String,
    pub changelog: String,
    pub force_update: bool,
    pub file_size: u64,
    pub release_notes: String,
}

/// Whether `c` is a decimal digit.
pub open spec fn is_ascii_digit(c: char) -> bool {
    48 <= c as u32 <= 57
}

/// Whether every character of `s` is a decimal digit.
pub open spec fn all_digits(s: Seq<char>) -> bool {
    forall|i: int| 0 <= i < s.len() ==> is_ascii_digit(#[trigger] s[i])
}

/// The number the decimal digits `s` denote.
pub open spec fn digits_value(s: Seq<char>) -> int
    decreases s.len(),
{
    if s.len() == 0 {
        0
    } else {
        digits_value(s.drop_last()) * 10 + (s.last() as u32 - 48)
    }
}

/// The value parsing one version component yields: the denoted number when
/// the text is an optional `+` followed by decimal digits that fit in `u32`,
/// and `0` for anything else, mirroring `str::parse::<u32>` with a fallback
/// of zero.
pub open spec fn spec_parse_u32(s: Seq<char>) -> u32 {
    let body = if s.len() > 0 && s[0] == '+' {
        s.drop_first()
    } else {
        s
    };
    if body.len() > 0 && all_digits(body) && digits_value(body) <= u32::MAX {
        digits_value(body) as u32
    } else {
        0u32
    }
}

proof fn lemma_digits_value_nonneg(s: Seq<char>)
    requires
        all_digits(s),
    ensures
        digits_value(s) >= 0,
    decreases s.len(),
{
    if s.len() > 0 {
        assert(forall|i: int| 0 <= i < s.len() - 1 ==> s.drop_last()[i] == s[i]);
        lemma_digits_value_nonneg(s.drop_last());
        assert(is_ascii_digit(s.last()));
    }
}

proof fn lemma_digits_take_succ(s: Seq<char>, m: int)
    requires
        0 <= m < s.len(),
    ensures
        digits_value(s.take(m + 1)) == digits_value(s.take(m)) * 10 + (s[m] as u32 - 48),
{
    assert(s.take(m + 1).drop_last() =~= s.take(m));
    assert(s.take(m + 1).last() == s[m]);
}

/// Once a digit prefix already exceeds `u32::MAX`, the whole digit string
/// does too.
proof fn lemma_digits_prefix_exceeds(s: Seq<char>, m: int)
    requires
        all_digits(s),
        0 <= m <= s.len(),
        digits_value(s.take(m)) > u32::MAX,
    ensures
        digits_value(s) > u32::MAX,
    decreases s.len() - m,
{
    if m == s.len() {
        assert(s.take(m) =~= s);
    } else {
        lemma_digits_take_succ(s, m);
        assert(is_ascii_digit(s[m]));
        lemma_digits_prefix_exceeds(s, m + 1);
    }
}

/// Parse one dotted version component the way the update check does:
/// a number when the component is well formed, zero otherwise.
pub fn parse_component(s: &str) -> (r: u32)
    ensures
        r == spec_parse_u32(s@),
{
    let len = s.unicode_len();
    let start: usize = if len > 0 && s.get_char(0) == '+' {
        1
    } else {
        0
    };
    let ghost body = if s@.len() > 0 && s@[0] == '+' {
        s@.drop_first()
    } else {
        s@
    };
    proof {
        assert(body =~= s@.skip(start as int));
    }
    if start >= len {
        return 0;
    }
    let mut acc: u32 = 0;
    let mut i: usize = start;
    while i < len
        invariant
            start <= i <= len,
            len == s@.len(),
            start < len,
            body == (if s@.len() > 0 && s@[0] == '+' {
                s@.drop_first()
            } else {
                s@
            }),
            body == s@.skip(start as int),
            body.len() == len - start,
            forall|j: int| 0 <= j < body.len() ==> body[j] == s@[start + j],
            all_digits(body.take(i - start)),
            acc == digits_value(body.take(i - start)),
        decreases len - i,
    {
        let c = s.get_char(i);
        let cv = c as u32;
        if cv < 48 || cv > 57 {
            proof {
                assert(body[i - start] == s@[i as int]);
                assert(!is_ascii_digit(body[i - start]));
            }
            return 0;
        }
        let d = cv - 48;
        if acc > (u32::MAX - d) / 10 {
            proof {
                lemma_digits_take_succ(body, i - start);
                assert(body[i - start] == s@[i as int]);
                assert(acc * 10 + d > u32::MAX);
                assert(digits_value(body.take(i - start + 1)) > u32::MAX);
                if all_digits(body) {
                    lemma_digits_prefix_exceeds(body, i - start + 1);
                }
            }
            return 0;
        }
        proof {
            lemma_digits_take_succ(body, i - start);
            assert(body[i - start] == s@[i as int]);
            assert(forall|j: int|
                0 <= j < i + 1 - start ==> body.take(i - start + 1)[j] == body[j]);
        }
        acc = acc * 10 + d;
        i = i + 1;
    }
    proof {
        assert(body.take(body.len() as int) =~= body);
    }
    acc
}

/// Index of the first `.` in `s`, or `-1` when there is none.
pub open spec fn first_dot(s: Seq<char>) -> int
    decreases s.len(),
{
    if s.len() == 0 {
        -1
    } else if s.first() == '.' {
        0
    } else if first_dot(s.drop_first()) < 0 {
        -1
    } else {
        first_dot(s.drop_first()) + 1
    }
}

proof fn lemma_first_dot_props(s: Seq<char>)
    ensures
        first_dot(s) == -1 || (0 <= first_dot(s) < s.len()),
        first_dot(s) >= 0 ==> s[first_dot(s)] == '.',
        forall|i: int| 0 <= i < s.len() && s[i] == '.' ==> 0 <= first_dot(s) <= i,
    decreases s.len(),
{
    if s.len() > 0 {
        let rest = s.drop_first();
        assert(forall|i: int| 0 <= i < rest.len() ==> rest[i] == s[i + 1]);
        lemma_first_dot_props(rest);
        if s.first() != '.' {
            assert forall|i: int| 0 <= i < s.len() && s[i] == '.' implies 0 <= first_dot(s)
                <= i by {
                assert(rest[i - 1] == s[i]);
            }
        }
    }
}

/// The components of `s` split on `.`, exactly as `str::split('.')` yields
/// them: a lone empty component for the empty string, and empty components
/// around consecutive or outer dots.
pub open spec fn split_dots(s: Seq<char>) -> Seq<Seq<char>>
    decreases s.len(),
    via split_dots_decreases
{
    if first_dot(s) < 0 {
        seq![s]
    } else {
        seq![s.take(first_dot(s))] + split_dots(s.skip(first_dot(s) + 1))
    }
}

#[via_fn]
proof fn split_dots_decreases(s: Seq<char>) {
    lemma_first_dot_props(s);
}

/// The numeric version components of `s`: split on dots, each component
/// parsed with a fallback of zero.
pub open spec fn spec_version_parts(s: Seq<char>) -> Seq<u32> {
    split_dots(s).map_values(|c: Seq<char>| spec_parse_u32(c))
}

/// Split a version string on dots and parse each component.
pub fn version_parts(s: &str) -> (r: Vec<u32>)
    ensures
        r@ == spec_version_parts(s@),
{
    let len = s.unicode_len();
    let mut r: Vec<u32> = Vec::new();
    let mut pos: usize = 0;
    let mut j: usize = 0;
    proof {
        assert(s@.skip(0) =~= s@);
        assert(r@ =~= Seq::<u32>::empty());
        assert((r@ + split_dots(s@).map_values(|c: Seq<char>| spec_parse_u32(c))) =~= split_dots(
            s@,
        ).map_values(|c: Seq<char>| spec_parse_u32(c)));
    }
    while j < len
        invariant
            pos <= j <= len,
            len == s@.len(),
            spec_version_parts(s@) == r@ + split_dots(s@.skip(pos as int)).map_values(
                |c: Seq<char>| spec_parse_u32(c),
            ),
            forall|m: int| pos <= m < j ==> s@[m] != '.',
        decreases len - j,
    {
        if s.get_char(j) == '.' {
            let comp = s.substring_char(pos, j);
            let v = parse_component(comp);
            let ghost region = s@.skip(pos as int);
            proof {
                lemma_first_dot_props(region);
                assert(forall|m: int| 0 <= m < region.len() ==> region[m] == s@[pos + m]);
                assert(region[j - pos] == '.');
                assert(forall|m: int| 0 <= m < j - pos ==> region[m] != '.');
                assert(first_dot(region) == j - pos) by {
                    assert(region[first_dot(region)] != '.' ==> false);
                    assert(0 <= first_dot(region) <= j - pos);
                    if first_dot(region) < j - pos {
                        assert(region[first_dot(region)] == '.');
                        assert(false);
                    }
                }
                assert(region.take(j - pos) =~= comp@);
                assert(region.skip(j - pos + 1) =~= s@.skip(j + 1));
                assert(split_dots(region) == seq![comp@] + split_dots(s@.skip(j + 1)));
                assert((r@ + split_dots(region).map_values(|c: Seq<char>| spec_parse_u32(c)))
                    =~= (r@.push(v) + split_dots(s@.skip(j + 1)).map_values(
                    |c: Seq<char>| spec_parse_u32(c),
                )));
            }
            r.push(v);
            pos = j + 1;
        }
        j = j + 1;
    }
    let comp = s.substring_char(pos, len);
    let v = parse_component(comp);
    let ghost region = s@.skip(pos as int);
    proof {
        lemma_first_dot_props(region);
        assert(forall|m: int| 0 <= m < region.len() ==> region[m] == s@[pos + m]);
        assert(first_dot(region) < 0) by {
            if first_dot(region) >= 0 {
                assert(region[first_dot(region)] == '.');
                assert(s@[pos + first_dot(region)] == '.');
            }
        }
        assert(region =~= comp@);
        assert(split_dots(region) == seq![comp@]);
        assert((r@ + seq![comp@].map_values(|c: Seq<char>| spec_parse_u32(c))) =~= r@.push(v));
    }
    let mut out = r;
    out.push(v);
    out
}

/// Whether version `latest` is newer than `cur`, comparing numeric
/// components position by position and, when all shared positions agree,
/// counting extra components on the latest side as newer.
pub open spec fn spec_is_newer(cur: Seq<u32>, latest: Seq<u32>) -> bool
    decreases cur.len(),
{
    if cur.len() == 0 || latest.len() == 0 {
        latest.len() > cur.len()
    } else if latest.first() > cur.first() {
        true
    } else if latest.first() < cur.first() {
        false
    } else {
        spec_is_newer(cur.drop_first(), latest.drop_first())
    }
}

/// The update service: remembers the running version and decides whether
/// fetched metadata announces something newer.
pub struct UpdateService {
    pub current_version: String,
}

impl UpdateService {
    /// A service that compares against the given running version.
    pub fn new(current_version: String) -> (s: Self)
        ensures
            s.current_version@ == current_version@,
    {
        UpdateService { current_version }
    }

    /// Whether `latest_version` is newer than the running version.
    pub fn is_newer_version(&self, latest_version: &str) -> (r: bool)
        ensures
            r == spec_is_newer(
                spec_version_parts(self.current_version@),
                spec_version_parts(latest_version@),
            ),
    {
        let cur = version_parts(self.current_version.as_str());
        let latest = version_parts(latest_version);
        let mut i: usize = 0;
        let n = if cur.len() < latest.len() {
            cur.len()
        } else {
            latest.len()
        };
        proof {
            assert(cur@.skip(0) =~= cur@);
            assert(latest@.skip(0) =~= latest@);
        }
        while i < n
            invariant
                i <= n,
                n == if cur@.len() < latest@.len() {
                    cur@.len()
                } else {
                    latest@.len()
                },
                cur@ == spec_version_parts(self.current_version@),
                latest@ == spec_version_parts(latest_version@),
                spec_is_newer(cur@, latest@) == spec_is_newer(
                    cur@.skip(i as int),
                    latest@.skip(i as int),
                ),
            decreases n - i,
        {
            proof {
                assert(cur@.skip(i as int).first() == cur@[i as int]);
                assert(latest@.skip(i as int).first() == latest@[i as int]);
                assert(cur@.skip(i as int).drop_first() =~= cur@.skip(i + 1));
                assert(latest@.skip(i as int).drop_first() =~= latest@.skip(i + 1));
            }
            if latest[i] > cur[i] {
                return true;
            }
            if latest[i] < cur[i] {
                return false;
            }
            i = i + 1;
        }
        proof {
            assert(cur@.skip(i as int).len() == cur@.len() - i);
            assert(latest@.skip(i as int).len() == latest@.len() - i);
        }
        latest.len() > cur.len()
    }

    /// Decide what to report when the update endpoint answered. The download
    /// details are present exactly when the announced version is newer.
    pub fn check_for_updates(&self, fetched: Option<&UpdateResponse>) -> (r: UpdateInfo)
        ensures
            r.current_version@ == self.current_version@,
            match fetched {
                Some(resp) => {
                    let newer = spec_is_newer(
                        spec_version_parts(self.current_version@),
                        spec_version_parts(resp.version@),
                    );
                    &&& r.update_available == newer
                    &&& r.latest_version@ == resp.version@
                    &&& r.force_update == resp.force_update
                    &&& if newer {
                        &&& r.download_url matches Some(u) && u@ == resp.download_url@
                        &&& r.changelog matches Some(c) && c@ == resp.changelog@
                        &&& r.release_notes matches Some(n) && n@ == resp.release_notes@
                        &&& r.file_size == Some(resp.file_size)
                    } else {
                        &&& r.download_url is None
                        &&& r.changelog is None
                        &&& r.release_notes is None
                        &&& r.file_size is None
                    }
                },
                None => {
                    &&& r.update_available == false
                    &&& r.latest_version@ == self.current_version@
                    &&& r.force_update == false
                    &&& r.download_url is None
                    &&& r.changelog is None
                    &&& r.release_notes is None
                    &&& r.file_size is None
                },
            },
    {
        match fetched {
            Some(resp) => {
                let newer = self.is_newer_version(resp.version.as_str());
                UpdateInfo {
                    update_available: newer,
                    latest_version: resp.version.clone(),
                    current_version: self.current_version.clone(),
                    download_url: if newer {
                        Some(resp.download_url.clone())
                    } else {
                        None
                    },
                    changelog: if newer {
                        Some(resp.changelog.clone())
                    } else {
                        None
                    },
                    force_update: resp.force_update,
                    release_notes: if newer {
                        Some(resp.release_notes.clone())
                    } else {
                        None
                    },
                    file_size: if newer {
                        Some(resp.file_size)
                    } else {
                        None
                    },
                }
            },
            None => UpdateInfo {
                update_available: false,
                latest_version: self.current_version.clone(),
                current_version: self.current_version.clone(),
                download_url: None,
                changelog: None,
                force_update: false,
                release_notes: None,
                file_size: None,
            },
        }
    }
}

} // verus!
