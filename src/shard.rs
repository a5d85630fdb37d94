use vstd::prelude::*;
use vstd::string::*;

verus! {

/// The instant a recording session started, as whole seconds since the Unix
/// epoch and nanoseconds past them.
#[derive(Clone, Copy, Debug, PartialEq, Eq, Structural)]
pub struct SessionTime {
    pub seconds: i64,
    pub nanos: u32,
}

impl SessionTime {
    pub open spec fn spec_before(self, other: SessionTime) -> bool {
        self.seconds < other.seconds || (self.seconds == other.seconds && self.nanos < other.nanos)
    }

    /// Whether this instant comes strictly before `other`.
    pub fn before(&self, other: &SessionTime) -> (r: bool)
        ensures
            r == self.spec_before(*other),
    {
        self.seconds < other.seconds || (self.seconds == other.seconds && self.nanos < other.nanos)
    }
}

/// The instant that an RFC 3339 text names, as chrono reads it.
pub uninterp spec fn rfc3339_instant(s: Seq<char>) -> Option<(i64, u32)>;

/// Relies on chrono::DateTime::parse_from_rfc3339: the instant the text
/// names, in whole seconds since the epoch and nanoseconds past them, or
/// nothing where the text is not RFC 3339.
#[verifier::external_body]
fn parse_rfc3339(s: &str) -> (r: Option<(i64, u32)>)
    ensures
        r == rfc3339_instant(s@),
{
    chrono::DateTime::parse_from_rfc3339(s).ok().map(|t| (t.timestamp(), t.timestamp_subsec_nanos()))
}

/// The RFC 3339 text, with milliseconds and a `Z` suffix, of an instant.
pub uninterp spec fn rfc3339_millis_text(t: (i64, u32)) -> Option<Seq<char>>;

/// Relies on chrono::DateTime::from_timestamp and DateTime::to_rfc3339_opts
/// with millisecond precision and `Z`: nothing where the instant is out of
/// chrono's range.
#[verifier::external_body]
fn format_rfc3339_millis(t: (i64, u32)) -> (r: Option<String>)
    ensures
        r matches Some(s) ==> rfc3339_millis_text(t) == Some(s@),
        r is None ==> rfc3339_millis_text(t) is None,
{
    chrono::DateTime::from_timestamp(t.0, t.1).map(|d| d.to_rfc3339_opts(chrono::SecondsFormat::Millis, true))
}

/// `s` with each `from` replaced by `to`.
pub open spec fn replace_chars(s: Seq<char>, from: char, to: char) -> Seq<char> {
    s.map_values(|c: char| if c == from { to } else { c })
}

/// `s` with each `from` replaced by the one character of `to`.
fn replace_char(s: &str, from: char, to: &str) -> (r: String)
    requires
        to@.len() == 1,
    ensures
        r@ == replace_chars(s@, from, to@[0]),
{
    let n = s.unicode_len();
    let mut r = String::new();
    let mut i: usize = 0;
    while i < n
        invariant
            n == s@.len(),
            i <= n,
            to@.len() == 1,
            r@ == replace_chars(s@.take(i as int), from, to@[0]),
        decreases n - i,
    {
        let c = s.get_char(i);
        if c == from {
            r.append(to);
        } else {
            r.append(s.substring_char(i, i + 1));
        }
        assert(s@.take(i + 1) =~= s@.take(i as int).push(c));
        assert(r@ =~= replace_chars(s@.take(i + 1), from, to@[0]));
        i = i + 1;
    }
    assert(s@.take(n as int) =~= s@);
    r
}

/// The decimal digits of `n`.
pub open spec fn decimal(n: nat) -> Seq<char>
    decreases n,
{
    if n < 10 {
        seq![digit_char(n)]
    } else {
        decimal(n / 10) + seq![digit_char(n % 10)]
    }
}

pub open spec fn digit_char(d: nat) -> char {
    if d == 0 { '0' } else if d == 1 { '1' } else if d == 2 { '2' } else if d == 3 { '3' } else if d == 4 {
        '4'
    } else if d == 5 { '5' } else if d == 6 { '6' } else if d == 7 { '7' } else if d == 8 { '8' } else {
        '9'
    }
}

fn digit_str(d: usize) -> (r: &'static str)
    requires
        d < 10,
    ensures
        r@ == seq![digit_char(d as nat)],
{
    proof {
        reveal_strlit("0");
        reveal_strlit("1");
        reveal_strlit("2");
        reveal_strlit("3");
        reveal_strlit("4");
        reveal_strlit("5");
        reveal_strlit("6");
        reveal_strlit("7");
        reveal_strlit("8");
        reveal_strlit("9");
    }
    let r = if d == 0 { "0" } else if d == 1 { "1" } else if d == 2 { "2" } else if d == 3 { "3" } else if d
        == 4 { "4" } else if d == 5 { "5" } else if d == 6 { "6" } else if d == 7 { "7" } else if d == 8 {
        "8"
    } else { "9" };
    assert(r@ =~= seq![digit_char(d as nat)]);
    r
}

fn push_decimal(s: &mut String, n: usize)
    ensures
        final(s)@ == old(s)@ + decimal(n as nat),
    decreases n,
{
    if n >= 10 {
        push_decimal(s, n / 10);
    }
    s.append(digit_str(n % 10));
    proof {
        if n >= 10 {
            assert(final(s)@ =~= old(s)@ + decimal(n as nat));
        } else {
            assert(final(s)@ =~= old(s)@ + decimal(n as nat));
        }
    }
}

/// Name of the shard that compression worker `worker` writes for the session
/// whose timestamp text is `timestamp`.
pub open spec fn spec_shard_filename(timestamp: Seq<char>, worker: nat) -> Seq<char> {
    timestamp + "--"@ + decimal(worker) + ".sz"@
}

/// Name of the shard that compression worker `worker` writes for the session
/// whose timestamp text is `timestamp`.
pub fn shard_filename(timestamp: &str, worker: usize) -> (r: String)
    ensures
        r@ == spec_shard_filename(timestamp@, worker as nat),
{
    let mut s = String::from_str(timestamp);
    s.append("--");
    push_decimal(&mut s, worker);
    s.append(".sz");
    s
}

/// The timestamp text of a session as it appears in file names: RFC 3339
/// with every `:` replaced by `_`, which file systems accept.
pub fn filename_timestamp(rfc3339: &str) -> (r: String)
    ensures
        r@ == replace_chars(rfc3339@, ':', '_'),
{
    proof {
        reveal_strlit("_");
    }
    replace_char(rfc3339, ':', "_")
}

/// Name of the video file of a session: its timestamp text with `_` for `:`,
/// followed by `.mp4`. Nothing where chrono cannot express the instant.
pub fn video_filename(t: SessionTime) -> (r: Option<String>)
    ensures
        r is Some <==> rfc3339_millis_text((t.seconds, t.nanos)) is Some,
        r matches Some(s) ==> s@ == replace_chars(rfc3339_millis_text((t.seconds, t.nanos))->Some_0, ':', '_')
            + ".mp4"@,
{
    match format_rfc3339_millis((t.seconds, t.nanos)) {
        Some(text) => {
            let mut s = filename_timestamp(text.as_str());
            s.append(".mp4");
            Some(s)
        },
        None => None,
    }
}

/// Whether a `--` separator starts at position `i` of `s`.
pub open spec fn separator_at(s: Seq<char>, i: int) -> bool {
    0 <= i && i + 1 < s.len() && s[i] == '-' && s[i + 1] == '-'
}

/// Position of the first `--` separator of `s`, or its length where it has none.
pub open spec fn first_separator(s: Seq<char>) -> nat
    decreases s.len(),
{
    if s.len() < 2 {
        s.len()
    } else if s[0] == '-' && s[1] == '-' {
        0
    } else {
        1 + first_separator(s.skip(1))
    }
}

proof fn lemma_first_separator(s: Seq<char>, i: int)
    requires
        0 <= i <= s.len(),
        forall|j: int| 0 <= j < i ==> !separator_at(s, j),
        separator_at(s, i) || i + 1 >= s.len(),
    ensures
        first_separator(s) == if separator_at(s, i) { i } else { s.len() as int },
    decreases i,
{
    if s.len() < 2 {
    } else if s[0] == '-' && s[1] == '-' {
        if i > 0 {
            assert(separator_at(s, 0));
        }
    } else {
        if i == 0 {
            assert(!separator_at(s, 0));
        } else {
            let t = s.skip(1);
            assert forall|j: int| 0 <= j < i - 1 implies !separator_at(t, j) by {
                assert(!separator_at(s, j + 1));
            }
            lemma_first_separator(t, i - 1);
            assert(separator_at(s, i) == separator_at(t, i - 1));
        }
    }
}

/// Whether a file name ends with the shard extension.
pub open spec fn ends_with_sz(s: Seq<char>) -> bool {
    s.len() >= 3 && s.subrange(s.len() - 3, s.len() as int) == ".sz"@
}

/// The session instant that a shard's file name carries: the name must end in
/// `.sz`, and the part before its first `--`, with `:` for `_`, is read as
/// RFC 3339.
pub open spec fn shard_time(s: Seq<char>) -> Option<(i64, u32)> {
    if !ends_with_sz(s) {
        None
    } else {
        rfc3339_instant(replace_chars(s.take(first_separator(s) as int), '_', ':'))
    }
}

pub open spec fn to_session(t: (i64, u32)) -> SessionTime {
    SessionTime { seconds: t.0, nanos: t.1 }
}

/// Reads the session instant out of a shard's file name.
pub fn recover_timestamp_from_filename(filename: &str) -> (r: Option<SessionTime>)
    ensures
        r == match shard_time(filename@) {
            Some(t) => Some(to_session(t)),
            None => None,
        },
{
    let n = filename.unicode_len();
    if n < 3 {
        return None;
    }
    proof {
        reveal_strlit(".sz");
    }
    if !(filename.get_char(n - 3) == '.' && filename.get_char(n - 2) == 's' && filename.get_char(n - 1) == 'z') {
        proof {
            if ends_with_sz(filename@) {
                let t = filename@.subrange(n - 3, n as int);
                assert(t[0] == filename@[n - 3]);
                assert(t[1] == filename@[n - 2]);
                assert(t[2] == filename@[n - 1]);
            }
        }
        return None;
    }
    assert(filename@.subrange(n - 3, n as int) =~= ".sz"@);
    let mut i: usize = 0;
    while i < n - 1 && !(filename.get_char(i) == '-' && filename.get_char(i + 1) == '-')
        invariant
            n == filename@.len(),
            n >= 3,
            i <= n,
            forall|j: int| 0 <= j < i ==> !separator_at(filename@, j),
        decreases n - i,
    {
        i = i + 1;
    }
    let end = if i < n - 1 { i } else { n };
    proof {
        lemma_first_separator(filename@, i as int);
    }
    let prefix = filename.substring_char(0, end);
    proof {
        reveal_strlit(":");
    }
    let text = replace_char(prefix, '_', ":");
    match parse_rfc3339(text.as_str()) {
        Some(t) => Some(SessionTime { seconds: t.0, nanos: t.1 }),
        None => None,
    }
}

/// Whether `a` comes strictly before `b` in the order of their characters'
/// code points, the order of `String` comparison.
pub open spec fn name_before(a: Seq<char>, b: Seq<char>) -> bool
    decreases a.len(),
{
    if a.len() == 0 {
        b.len() > 0
    } else if b.len() == 0 {
        false
    } else if a[0] != b[0] {
        (a[0] as int) < (b[0] as int)
    } else {
        name_before(a.skip(1), b.skip(1))
    }
}

proof fn lemma_name_before_irreflexive(a: Seq<char>)
    ensures
        !name_before(a, a),
    decreases a.len(),
{
    if a.len() > 0 {
        lemma_name_before_irreflexive(a.skip(1));
    }
}

proof fn lemma_name_before_total(a: Seq<char>, b: Seq<char>)
    ensures
        a != b ==> name_before(a, b) || name_before(b, a),
        !(name_before(a, b) && name_before(b, a)),
    decreases a.len(),
{
    if a.len() > 0 && b.len() > 0 && a[0] == b[0] {
        lemma_name_before_total(a.skip(1), b.skip(1));
        if a.skip(1) == b.skip(1) {
            assert(a.len() == b.len());
            assert forall|i: int| 0 <= i < a.len() implies a[i] == b[i] by {
                if i > 0 {
                    assert(a[i] == a.skip(1)[i - 1]);
                    assert(b[i] == b.skip(1)[i - 1]);
                }
            }
            assert(a =~= b);
        }
    } else if a.len() == 0 && b.len() == 0 {
        assert(a =~= b);
    } else if a.len() > 0 && b.len() > 0 {
        assert(a[0] != b[0]);
        assert((a[0] as int) != (b[0] as int));
    }
}

proof fn lemma_name_before_transitive(a: Seq<char>, b: Seq<char>, c: Seq<char>)
    requires
        name_before(a, b),
        name_before(b, c),
    ensures
        name_before(a, c),
    decreases a.len(),
{
    if a.len() > 0 && b.len() > 0 && c.len() > 0 {
        if a[0] == b[0] && b[0] == c[0] {
            lemma_name_before_transitive(a.skip(1), b.skip(1), c.skip(1));
        } else {
            assert((a[0] as int) <= (b[0] as int));
        }
    }
}

proof fn lemma_name_before_from(a: Seq<char>, b: Seq<char>, i: int)
    requires
        0 <= i <= a.len(),
        i <= b.len(),
        forall|j: int| 0 <= j < i ==> a[j] == b[j],
    ensures
        name_before(a, b) == name_before(a.skip(i), b.skip(i)),
    decreases i,
{
    if i > 0 {
        assert forall|j: int| 0 <= j < i - 1 implies a.skip(1)[j] == b.skip(1)[j] by {
            assert(a[j + 1] == b[j + 1]);
        }
        lemma_name_before_from(a.skip(1), b.skip(1), i - 1);
        assert(a.skip(1).skip(i - 1) =~= a.skip(i));
        assert(b.skip(1).skip(i - 1) =~= b.skip(i));
    } else {
        assert(a.skip(0) =~= a);
        assert(b.skip(0) =~= b);
    }
}

/// Whether file name `a` sorts strictly before `b`.
pub fn name_less(a: &str, b: &str) -> (r: bool)
    ensures
        r == name_before(a@, b@),
{
    let la = a.unicode_len();
    let lb = b.unicode_len();
    let mut i: usize = 0;
    while i < la && i < lb && a.get_char(i) == b.get_char(i)
        invariant
            la == a@.len(),
            lb == b@.len(),
            i <= la,
            i <= lb,
            forall|j: int| 0 <= j < i ==> a@[j] == b@[j],
        decreases la - i,
    {
        i = i + 1;
    }
    proof {
        lemma_name_before_from(a@, b@, i as int);
    }
    if i == la {
        i < lb
    } else if i == lb {
        false
    } else {
        (a.get_char(i) as u32) < (b.get_char(i) as u32)
    }
}

/// Names sorted strictly, so each at most once.
pub open spec fn names_sorted(v: Seq<String>) -> bool {
    forall|i: int, j: int| 0 <= i < j < v.len() ==> name_before((#[trigger] v[i])@, (#[trigger] v[j])@)
}

/// Whether one of the names `v` reads `x`.
pub open spec fn has_name(v: Seq<String>, x: Seq<char>) -> bool {
    exists|k: int| 0 <= k < v.len() && (#[trigger] v[k])@ == x
}

/// Inserts `name` into names sorted strictly, where it is not there yet.
fn insert_name(names: &mut Vec<String>, name: String)
    requires
        names_sorted(old(names)@),
    ensures
        names_sorted(final(names)@),
        forall|x: Seq<char>| #[trigger] has_name(final(names)@, x) <==> has_name(old(names)@, x) || x == name@,
        final(names)@.len() > 0,
{
    let ghost nv = name@;
    let mut p: usize = 0;
    while p < names.len() && name_less(names[p].as_str(), name.as_str())
        invariant
            names@ == old(names)@,
            p <= names@.len(),
            forall|m: int| 0 <= m < p ==> name_before((#[trigger] names@[m])@, name@),
        decreases names@.len() - p,
    {
        p = p + 1;
    }
    if p < names.len() && !name_less(name.as_str(), names[p].as_str()) {
        proof {
            lemma_name_before_total(names@[p as int]@, name@);
            assert(names@[p as int]@ == name@);
            assert forall|x: Seq<char>| #[trigger] has_name(names@, x) <==> has_name(old(names)@, x) || x == name@ by {
                if x == name@ {
                    assert(names@[p as int]@ == x);
                }
            }
        }
        return;
    }
    let ghost before = names@;
    proof {
        if p < before.len() {
            lemma_name_before_total(before[p as int]@, name@);
            assert(!name_before(before[p as int]@, name@));
        }
    }
    names.insert(p, name);
    proof {
        let v = names@;
        assert(v[p as int]@ == nv);
        assert forall|i: int, j: int| 0 <= i < j < v.len() implies name_before((#[trigger] v[i])@, (#[trigger] v[j])@) by {
            if j < p {
                assert(v[i] == before[i] && v[j] == before[j]);
            } else if j == p {
                assert(v[i] == before[i]);
            } else if i == p {
                assert(v[j] == before[j - 1]);
                if j - 1 > p {
                    lemma_name_before_transitive(nv, before[p as int]@, before[j - 1]@);
                }
            } else if i < p {
                assert(v[i] == before[i] && v[j] == before[j - 1]);
                if j - 1 > p {
                    lemma_name_before_transitive(nv, before[p as int]@, before[j - 1]@);
                }
                lemma_name_before_transitive(before[i]@, nv, before[j - 1]@);
            } else {
                assert(v[i] == before[i - 1] && v[j] == before[j - 1]);
            }
        }
        assert forall|x: Seq<char>| #[trigger] has_name(v, x) <==> has_name(before, x) || x == nv by {
            if has_name(v, x) {
                let k = choose|k: int| 0 <= k < v.len() && (#[trigger] v[k])@ == x;
                if k < p {
                    assert(before[k]@ == x);
                } else if k > p {
                    assert(before[k - 1]@ == x);
                }
            }
            if has_name(before, x) {
                let k = choose|k: int| 0 <= k < before.len() && (#[trigger] before[k])@ == x;
                if k < p {
                    assert(v[k]@ == x);
                } else {
                    assert(v[k + 1]@ == x);
                }
            }
            if x == nv {
                assert(v[p as int]@ == x);
            }
        }
    }
}

/// The instant of a directory entry (a file name and its length in bytes) that
/// holds a shard: empty files are skipped.
pub open spec fn entry_time(e: (String, u64)) -> Option<(i64, u32)> {
    if e.1 > 0 {
        shard_time(e.0@)
    } else {
        None
    }
}

/// Whether directory entry `e` is a shard of the session `t` named `name`.
pub open spec fn holds_shard(e: (String, u64), t: SessionTime, name: Seq<char>) -> bool {
    entry_time(e) == Some((t.seconds, t.nanos)) && e.0@ == name
}

/// Whether the listing holds a shard of the session `t` named `name`.
pub open spec fn listed(entries: Seq<(String, u64)>, t: SessionTime, name: Seq<char>) -> bool {
    exists|i: int| 0 <= i < entries.len() && #[trigger] holds_shard(entries[i], t, name)
}

/// Shards grouped by session: instants strictly increasing, and each group's
/// names sorted, each once, with at least one.
pub open spec fn groups_ordered(r: Seq<(SessionTime, Vec<String>)>) -> bool {
    &&& forall|i: int, j: int| 0 <= i < j < r.len() ==> (#[trigger] r[i]).0.spec_before((#[trigger] r[j]).0)
    &&& forall|g: int| 0 <= g < r.len() ==> (#[trigger] r[g]).1@.len() > 0 && names_sorted(r[g].1@)
}

/// Every name in a group is a shard of the listing with that group's instant.
pub open spec fn groups_sound(r: Seq<(SessionTime, Vec<String>)>, entries: Seq<(String, u64)>) -> bool {
    forall|g: int, k: int|
        0 <= g < r.len() && 0 <= k < r[g].1@.len() ==> listed(entries, r[g].0, (#[trigger] r[g].1@[k])@)
}

/// Every shard of the first `n` entries of the listing is named in the group of
/// its instant.
pub open spec fn groups_complete(r: Seq<(SessionTime, Vec<String>)>, entries: Seq<(String, u64)>, n: int) -> bool {
    forall|i: int|
        0 <= i < n && (#[trigger] entry_time(entries[i])) is Some ==> exists|g: int|
            0 <= g < r.len() && (#[trigger] r[g]).0 == to_session(entry_time(entries[i])->Some_0) && has_name(
                r[g].1@,
                entries[i].0@,
            )
}

/// Groups the shards of a directory listing by the session their names carry,
/// sessions in the order they started, and each session's names sorted, once
/// each. Entries that are empty or whose names are not shard names are left
/// out.
pub fn scan_directory_for_timestamps(entries: &Vec<(String, u64)>) -> (r: Vec<(SessionTime, Vec<String>)>)
    ensures
        groups_ordered(r@),
        groups_sound(r@, entries@),
        groups_complete(r@, entries@, entries@.len() as int),
{
    let mut groups: Vec<(SessionTime, Vec<String>)> = Vec::new();
    let mut n: usize = 0;
    while n < entries.len()
        invariant
            n <= entries@.len(),
            groups_ordered(groups@),
            groups_sound(groups@, entries@),
            groups_complete(groups@, entries@, n as int),
        decreases entries@.len() - n,
    {
        let time = if entries[n].1 > 0 {
            recover_timestamp_from_filename(entries[n].0.as_str())
        } else {
            None
        };
        if let Some(t) = time {
            let name = entries[n].0.clone();
            let ghost nv = name@;
            let ghost old_groups = groups@;
            proof {
                assert(holds_shard(entries@[n as int], t, nv));
            }
            let mut j: usize = 0;
            while j < groups.len() && groups[j].0.before(&t)
                invariant
                    groups@ == old_groups,
                    j <= groups@.len(),
                    forall|m: int| 0 <= m < j ==> (#[trigger] groups@[m]).0.spec_before(t),
                decreases groups@.len() - j,
            {
                j = j + 1;
            }
            if j < groups.len() && groups[j].0 == t {
                let mut g = groups.remove(j);
                let ghost old_names = g.1@;
                insert_name(&mut g.1, name);
                groups.insert(j, g);
                proof {
                    let ng = groups@;
                    assert(ng.len() == old_groups.len());
                    assert forall|m: int| 0 <= m < ng.len() && m != j implies #[trigger] ng[m] == old_groups[m] by {}
                    assert(ng[j as int].0 == t);
                    assert(old_names == old_groups[j as int].1@);
                    assert forall|a: int, b: int| 0 <= a < b < ng.len() implies (#[trigger] ng[a]).0.spec_before(
                        (#[trigger] ng[b]).0,
                    ) by {
                        assert(old_groups[a].0.spec_before(old_groups[b].0));
                    }
                    assert forall|gi: int, k: int| 0 <= gi < ng.len() && 0 <= k < ng[gi].1@.len() implies listed(
                        entries@,
                        ng[gi].0,
                        (#[trigger] ng[gi].1@[k])@,
                    ) by {
                        if gi == j {
                            let x = ng[gi].1@[k]@;
                            assert(has_name(ng[gi].1@, x));
                            if x != nv {
                                assert(has_name(old_names, x));
                                let k2 = choose|k2: int| 0 <= k2 < old_names.len() && (#[trigger] old_names[k2])@ == x;
                                assert(listed(entries@, old_groups[gi].0, old_groups[gi].1@[k2]@));
                            }
                        }
                    }
                    assert forall|i: int|
                        0 <= i < n + 1 && (#[trigger] entry_time(entries@[i])) is Some implies exists|gi: int|
                            0 <= gi < ng.len() && (#[trigger] ng[gi]).0 == to_session(entry_time(entries@[i])->Some_0)
                                && has_name(ng[gi].1@, entries@[i].0@) by {
                        if i == n {
                            assert(has_name(ng[j as int].1@, nv));
                            assert(ng[j as int].0 == to_session(entry_time(entries@[i])->Some_0));
                        } else {
                            let gi = choose|gi: int|
                                0 <= gi < old_groups.len() && (#[trigger] old_groups[gi]).0 == to_session(
                                    entry_time(entries@[i])->Some_0,
                                ) && has_name(old_groups[gi].1@, entries@[i].0@);
                            assert(ng[gi].0 == old_groups[gi].0);
                            if gi == j {
                                assert(has_name(ng[gi].1@, entries@[i].0@));
                            }
                        }
                    }
                }
            } else {
                let mut names: Vec<String> = Vec::new();
                names.push(name);
                groups.insert(j, (t, names));
                proof {
                    let ng = groups@;
                    assert(ng.len() == old_groups.len() + 1);
                    assert forall|m: int| 0 <= m < j implies #[trigger] ng[m] == old_groups[m] by {}
                    assert forall|m: int| j < m < ng.len() implies #[trigger] ng[m] == old_groups[m - 1] by {}
                    assert(ng[j as int].1@[0]@ == nv);
                    if j < old_groups.len() {
                        assert(!old_groups[j as int].0.spec_before(t));
                        assert(old_groups[j as int].0 != t);
                        assert(t.spec_before(old_groups[j as int].0));
                    }
                    assert forall|a: int, b: int| 0 <= a < b < ng.len() implies (#[trigger] ng[a]).0.spec_before(
                        (#[trigger] ng[b]).0,
                    ) by {
                        if b < j {
                            assert(old_groups[a].0.spec_before(old_groups[b].0));
                        } else if b == j {
                        } else if a < j {
                            assert(old_groups[a].0.spec_before(t));
                            if b - 1 > j {
                                assert(old_groups[j as int].0.spec_before(old_groups[b - 1].0));
                            }
                        } else if a == j {
                            if b - 1 > j {
                                assert(old_groups[j as int].0.spec_before(old_groups[b - 1].0));
                            }
                        } else {
                            assert(old_groups[a - 1].0.spec_before(old_groups[b - 1].0));
                        }
                    }
                    assert forall|gi: int| 0 <= gi < ng.len() implies (#[trigger] ng[gi]).1@.len() > 0 && names_sorted(
                        ng[gi].1@,
                    ) by {
                        if gi > j {
                            assert(ng[gi] == old_groups[gi - 1]);
                        }
                    }
                    assert forall|gi: int, k: int| 0 <= gi < ng.len() && 0 <= k < ng[gi].1@.len() implies listed(
                        entries@,
                        ng[gi].0,
                        (#[trigger] ng[gi].1@[k])@,
                    ) by {
                        if gi == j {
                        } else if gi < j {
                            assert(ng[gi].1@[k] == old_groups[gi].1@[k]);
                        } else {
                            assert(ng[gi].1@[k] == old_groups[gi - 1].1@[k]);
                        }
                    }
                    assert forall|i: int|
                        0 <= i < n + 1 && (#[trigger] entry_time(entries@[i])) is Some implies exists|gi: int|
                            0 <= gi < ng.len() && (#[trigger] ng[gi]).0 == to_session(entry_time(entries@[i])->Some_0)
                                && has_name(ng[gi].1@, entries@[i].0@) by {
                        if i == n {
                            assert(has_name(ng[j as int].1@, nv));
                            assert(ng[j as int].0 == to_session(entry_time(entries@[i])->Some_0));
                        } else {
                            let gi = choose|gi: int|
                                0 <= gi < old_groups.len() && (#[trigger] old_groups[gi]).0 == to_session(
                                    entry_time(entries@[i])->Some_0,
                                ) && has_name(old_groups[gi].1@, entries@[i].0@);
                            if gi < j {
                                assert(ng[gi] == old_groups[gi]);
                            } else {
                                assert(ng[gi + 1] == old_groups[gi]);
                            }
                        }
                    }
                }
            }
        } else {
            proof {
                assert(entry_time(entries@[n as int]) is None);
            }
        }
        n = n + 1;
    }
    groups
}

} // verus!
