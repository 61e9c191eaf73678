//! Every active vbucket's UUID, gathered from the nodes' statistics: all of them
//! or an error, because a scan vector with a hole in it reads like a whole one.
use std::collections::HashMap;
use vstd::prelude::*;
use crate::error::{Error, ErrorKind};
use crate::indexerx::status::{lossy, lossy_text};
use crate::string_map::StringMap;
use crate::text::{
    chars_of, decimal, decimal_of, join, joined, owned, parse_unsigned, parse_unsigned_chars,
    parsed_unsigned, push_decimal, same_chars, same_text,
};

verus! {

broadcast use vstd::std_specs::hash::group_hash_axioms;

/// How many missing vbuckets an error names.
pub const MAX_NAMED: usize = 20;

/// What `format!("{:?}", text)` makes of a text: it in quotes, with escapes.
pub uninterp spec fn quoted(text: Seq<char>) -> Seq<char>;

/// `format!` with `{:?}` of a `str`, whose result is named `quoted`. Believed of
/// it is only that it depends on the text alone.
#[verifier::external_body]
pub(crate) fn quote(text: &str) -> (r: String)
    ensures
        r@ == quoted(text@),
{
    format!("{:?}", text)
}

/// The vbucket that a line's key is about, where it is that of a vbucket's
/// UUID: `vb_N:uuid`.
pub open spec fn uuid_key(key: Seq<char>) -> Option<u16> {
    if key.len() >= 3 && key.take(3) == "vb_"@ {
        let rest = key.skip(3);
        match first_colon(rest) {
            Some(colon) => if rest.skip(colon + 1) == "uuid"@ {
                match parsed_unsigned(rest.take(colon), u16::MAX as nat) {
                    Some(vb) => Some(vb as u16),
                    None => None,
                }
            } else {
                None
            },
            None => None,
        }
    } else {
        None
    }
}

/// Where the first colon of a text stands.
pub open spec fn first_colon(s: Seq<char>) -> Option<int>
    decreases s.len(),
{
    if s.len() == 0 {
        None
    } else if s[0] == ':' {
        Some(0)
    } else {
        match first_colon(s.skip(1)) {
            Some(i) => Some(i + 1),
            None => None,
        }
    }
}

proof fn lemma_first_colon(s: Seq<char>, i: int)
    requires
        0 <= i <= s.len(),
        forall|j: int| 0 <= j < i ==> s[j] != ':',
        i < s.len() ==> s[i] == ':',
    ensures
        first_colon(s) == (if i < s.len() {
            Some(i)
        } else {
            None
        }),
    decreases i,
{
    if i > 0 {
        let rest = s.skip(1);
        assert forall|j: int| 0 <= j < i - 1 implies rest[j] != ':' by {
            assert(rest[j] == s[j + 1]);
        }
        if i < s.len() {
            assert(rest[i - 1] == s[i]);
        }
        lemma_first_colon(rest, i - 1);
    }
}

fn uuid_key_of(key: &str) -> (r: Option<u16>)
    ensures
        r == uuid_key(key@),
{
    let chars: Vec<char> = chars_of(key);
    let prefix: Vec<char> = chars_of("vb_");
    proof {
        reveal_strlit("vb_");
    }
    if chars.len() < 3 {
        return None;
    }
    if !same_chars(vstd::slice::slice_subrange(chars.as_slice(), 0, 3), prefix.as_slice()) {
        assert(chars@.subrange(0, 3) =~= key@.take(3));
        return None;
    }
    assert(chars@.subrange(0, 3) =~= key@.take(3));
    let rest: &[char] = vstd::slice::slice_subrange(chars.as_slice(), 3, chars.len());
    assert(rest@ =~= key@.skip(3));
    let mut colon: usize = 0;
    while colon < rest.len() && rest[colon] != ':'
        invariant
            colon <= rest@.len(),
            forall|j: int| 0 <= j < colon ==> rest@[j] != ':',
        ensures
            colon < rest@.len() ==> rest@[colon as int] == ':',
        decreases rest@.len() - colon,
    {
        colon += 1;
    }
    proof {
        lemma_first_colon(rest@, colon as int);
    }
    if colon == rest.len() {
        return None;
    }
    let field: &[char] = vstd::slice::slice_subrange(rest, colon + 1, rest.len());
    assert(field@ =~= rest@.skip(colon + 1));
    let uuid: Vec<char> = chars_of("uuid");
    if !same_chars(field, uuid.as_slice()) {
        return None;
    }
    let number: &[char] = vstd::slice::slice_subrange(rest, 0, colon);
    assert(number@ =~= rest@.take(colon as int));
    match parse_unsigned_chars(number, 65535) {
        Some(vb) => Some(vb as u16),
        None => None,
    }
}

/// Whether `endpoint` is the node that is active for the vbucket.
pub open spec fn is_active(active: Map<u16, String>, vb: u16, endpoint: Seq<char>) -> bool {
    active.contains_key(vb) && active[vb]@ == endpoint
}

/// What a line leaves in place of `out`, and whether it can be made sense of. A
/// line is taken where it is that of a vbucket's UUID and comes from the node
/// that is active for it; with a value that is no number it is refused. Every
/// other line is passed over.
pub open spec fn with_line(
    out: Map<u16, u64>,
    active: Map<u16, String>,
    endpoint: Seq<char>,
    key: Seq<char>,
    value: Seq<char>,
) -> (Map<u16, u64>, bool) {
    match uuid_key(key) {
        Some(vb) => if is_active(active, vb, endpoint) {
            match parsed_unsigned(value, u64::MAX as nat) {
                Some(v) => (out.insert(vb, v as u64), true),
                None => (out, false),
            }
        } else {
            (out, true)
        },
        None => (out, true),
    }
}

/// Takes one line of statistics.
pub fn take_vbuuid_line(
    out: &mut HashMap<u16, u64>,
    active: &HashMap<u16, String>,
    endpoint: &str,
    key: &str,
    value: &str,
) -> (r: bool)
    ensures
        (final(out)@, r) == with_line(old(out)@, active@, endpoint@, key@, value@),
{
    let vb: u16 = match uuid_key_of(key) {
        Some(vb) => vb,
        None => {
            return true;
        },
    };
    let named: bool = match active.get(&vb) {
        Some(node) => same_text(node.as_str(), endpoint),
        None => false,
    };
    if !named {
        return true;
    }
    match parse_unsigned(value, u64::MAX) {
        Some(v) => {
            out.insert(vb, v);
            true
        },
        None => false,
    }
}

/// The vbuckets below `n` that `have` lacks, in ascending order.
pub open spec fn missing(n: nat, have: Map<u16, u64>) -> Seq<u16>
    decreases n,
{
    if n == 0 {
        Seq::empty()
    } else {
        let before = missing((n - 1) as nat, have);
        if have.contains_key((n - 1) as u16) {
            before
        } else {
            before.push((n - 1) as u16)
        }
    }
}

/// Numbers in decimal, with a comma and a space between them.
pub open spec fn listed(numbers: Seq<u16>) -> Seq<char> {
    joined(numbers.map_values(|n: u16| decimal(n as nat)), ", "@)
}

/// A list of numbers, of which at most so many are named.
pub open spec fn named(numbers: Seq<u16>) -> Seq<char> {
    if numbers.len() > MAX_NAMED {
        listed(numbers.take(MAX_NAMED as int)) + ", and "@ + decimal(
            (numbers.len() - MAX_NAMED) as nat,
        ) + " more"@
    } else {
        listed(numbers)
    }
}

/// What is below `n` and missing is listed once, and nothing else is.
proof fn lemma_missing(n: nat, have: Map<u16, u64>)
    requires
        n <= 0x10000,
    ensures
        forall|vb: u16| #[trigger]
            missing(n, have).contains(vb) <==> (vb < n && !have.contains_key(vb)),
        forall|i: int, j: int|
            0 <= i < j < missing(n, have).len() ==> missing(n, have)[i] < missing(n, have)[j],
        missing(n, have).len() <= n,
    decreases n,
{
    if n > 0 {
        lemma_missing((n - 1) as nat, have);
        let before = missing((n - 1) as nat, have);
        let all = missing(n, have);
        let last = (n - 1) as u16;
        assert(last == n - 1);
        assert forall|vb: u16| #[trigger] all.contains(vb) <==> (vb < n && !have.contains_key(
            vb,
        )) by {
            if before.contains(vb) {
                let i = choose|i: int| 0 <= i < before.len() && before[i] == vb;
                assert(all[i] == vb);
            }
            if all.contains(vb) && !before.contains(vb) {
                let i = choose|i: int| 0 <= i < all.len() && all[i] == vb;
                if i < before.len() {
                    assert(before[i] == vb);
                }
                assert(vb == last && !have.contains_key(last));
            }
            if vb == last && !have.contains_key(last) {
                assert(all[before.len() as int] == last);
            }
        }
        assert forall|i: int, j: int| 0 <= i < j < all.len() implies all[i] < all[j] by {
            if j == before.len() {
                assert(before.contains(before[i]));
            }
        }
    }
}

/// Nothing is missing exactly where every vbucket is there.
pub proof fn a_map_is_complete_where_nothing_is_missing(n: nat, have: Map<u16, u64>)
    requires
        n <= 0x10000,
    ensures
        missing(n, have).len() == 0 <==> is_complete(n, have),
{
    lemma_missing(n, have);
    if missing(n, have).len() > 0 {
        assert(missing(n, have).contains(missing(n, have)[0]));
    }
    if missing(n, have).len() == 0 && !is_complete(n, have) {
        let vb = choose|vb: u16| vb < n && !#[trigger] have.contains_key(vb);
        assert(missing(n, have).contains(vb));
    }
}

/// The vbuckets below `n` that are absent, as a short list for an error.
pub fn missing_vbuckets(n: u16, have: &HashMap<u16, u64>) -> (r: String)
    ensures
        r@ == named(missing(n as nat, have@)),
{
    let mut absent: Vec<u16> = Vec::new();
    let mut vb: u16 = 0;
    while vb < n
        invariant
            vb <= n,
            absent@ == missing(vb as nat, have@),
        decreases n - vb,
    {
        if !have.contains_key(&vb) {
            absent.push(vb);
        }
        vb += 1;
    }
    let mut shown: Vec<String> = Vec::new();
    let mut i: usize = 0;
    let most: usize = if absent.len() > MAX_NAMED {
        MAX_NAMED
    } else {
        absent.len()
    };
    while i < most
        invariant
            i <= most <= absent.len(),
            shown@.len() == i,
            forall|j: int| 0 <= j < i ==> (#[trigger] shown@[j])@ == decimal(absent@[j] as nat),
        decreases most - i,
    {
        shown.push(decimal_of(absent[i] as u64));
        i += 1;
    }
    let mut r: String = join(&shown, ", ");
    assert(shown@.map_values(|s: String| s@) =~= absent@.take(most as int).map_values(
        |n: u16| decimal(n as nat),
    ));
    if absent.len() > MAX_NAMED {
        r.append(", and ");
        push_decimal(&mut r, (absent.len() - MAX_NAMED) as u64);
        r.append(" more");
    } else {
        assert(absent@.take(most as int) =~= absent@);
    }
    r
}

/// Every vbucket below `n` has an entry.
pub open spec fn is_complete(n: nat, have: Map<u16, u64>) -> bool {
    forall|vb: u16| vb < n ==> #[trigger] have.contains_key(vb)
}

/// The map itself where it has exactly one entry for each of `n` vbuckets, else
/// an error that says how many there are and which are missing. A vbucket's
/// number has sixteen bits, so the error looks no further.
pub fn require_complete(n: usize, vbuuids: HashMap<u16, u64>) -> (r: Result<
    HashMap<u16, u64>,
    Error,
>)
    ensures
        ({
            let whole = vbuuids@.dom().len() == n && is_complete(n as nat, vbuuids@);
            &&& whole ==> r == Ok::<HashMap<u16, u64>, Error>(vbuuids)
            &&& !whole ==> (r matches Err(e) && (e.spec_kind() matches ErrorKind::Message { msg }
                && msg@ == "got "@ + decimal(vbuuids@.dom().len()) + " of "@ + decimal(n as nat)
                + " vbucket uuids; missing "@ + named(missing((n as u16) as nat, vbuuids@)))
                && e.spec_retry_info() is None)
        }),
{
    let mut whole: bool = vbuuids.len() == n;
    let mut vb: usize = 0;
    while whole && vb < n && vb <= 65535
        invariant
            vb <= n,
            whole ==> vbuuids@.dom().len() == n && forall|v: u16|
                v < vb ==> #[trigger] vbuuids@.contains_key(v),
            !whole ==> vbuuids@.dom().len() != n || !is_complete(n as nat, vbuuids@),
        decreases n - vb,
    {
        if !vbuuids.contains_key(&(vb as u16)) {
            assert(!vbuuids@.contains_key(vb as u16));
            whole = false;
        }
        vb += 1;
    }
    if whole {
        return Ok(vbuuids);
    }
    let mut msg: String = owned("got ");
    push_decimal(&mut msg, vbuuids.len() as u64);
    msg.append(" of ");
    push_decimal(&mut msg, n as u64);
    msg.append(" vbucket uuids; missing ");
    let absent: String = missing_vbuckets(n as u16, &vbuuids);
    msg.append(absent.as_str());
    Err(Error::new_message_error(msg.as_str()))
}

/// Whether some vbucket is dispatched to the endpoint.
pub open spec fn is_dispatched_to(dispatched: Seq<(u16, String)>, id: Seq<char>) -> bool {
    exists|k: int| 0 <= k < dispatched.len() && (#[trigger] dispatched[k]).1@ == id
}

/// Whether a text is in a list.
pub open spec fn is_among(ids: Seq<String>, id: Seq<char>) -> bool {
    exists|i: int| 0 <= i < ids.len() && (#[trigger] ids[i])@ == id
}

/// The endpoints to resolve: each that some vbucket is dispatched to, once.
pub fn distinct_endpoints(dispatched: &Vec<(u16, String)>) -> (r: Vec<String>)
    ensures
        forall|i: int, j: int|
            0 <= i < j < r@.len() ==> (#[trigger] r@[i])@ != (#[trigger] r@[j])@,
        forall|k: int| 0 <= k < dispatched@.len() ==> is_among(r@, (#[trigger] dispatched@[k]).1@),
        forall|i: int| 0 <= i < r@.len() ==> is_dispatched_to(dispatched@, (#[trigger] r@[i])@),
{
    let mut r: Vec<String> = Vec::new();
    let mut k: usize = 0;
    while k < dispatched.len()
        invariant
            k <= dispatched.len(),
            forall|i: int, j: int|
                0 <= i < j < r@.len() ==> (#[trigger] r@[i])@ != (#[trigger] r@[j])@,
            forall|m: int| 0 <= m < k ==> is_among(r@, (#[trigger] dispatched@[m]).1@),
            forall|i: int|
                0 <= i < r@.len() ==> is_dispatched_to(dispatched@, (#[trigger] r@[i])@),
        decreases dispatched.len() - k,
    {
        let id: &String = &dispatched[k].1;
        let mut known: bool = false;
        let mut i: usize = 0;
        while i < r.len() && !known
            invariant
                i <= r@.len(),
                known ==> is_among(r@, id@),
                !known ==> forall|j: int| 0 <= j < i ==> (#[trigger] r@[j])@ != id@,
            decreases
                if known {
                    0
                } else {
                    r@.len() - i + 1
                },
        {
            if same_text(r[i].as_str(), id.as_str()) {
                known = true;
            } else {
                i += 1;
            }
        }
        let ghost before = r@;
        if !known {
            r.push(id.clone());
            assert(r@[before.len() as int]@ == dispatched@[k as int].1@);
        }
        assert forall|m: int| 0 <= m < k + 1 implies is_among(
            r@,
            (#[trigger] dispatched@[m]).1@,
        ) by {
            if m < k {
                let i = choose|i: int|
                    0 <= i < before.len() && (#[trigger] before[i])@ == dispatched@[m].1@;
                assert(r@[i] == before[i]);
            } else if known {
                let i = choose|i: int| 0 <= i < before.len() && (#[trigger] before[i])@ == id@;
                assert(r@[i] == before[i]);
            }
        }
        assert forall|i: int| 0 <= i < r@.len() implies is_dispatched_to(
            dispatched@,
            (#[trigger] r@[i])@,
        ) by {
            if i < before.len() {
                assert(r@[i] == before[i]);
            } else {
                assert(dispatched@[k as int].1@ == r@[i]@);
            }
        }
        k += 1;
    }
    r
}

/// The node that is active for each vbucket, by the address that its statistics
/// come under.
pub open spec fn active_of(
    dispatched: Seq<(u16, String)>,
    canonical: Map<Seq<char>, String>,
) -> Map<u16, String>
    decreases dispatched.len(),
{
    if dispatched.len() == 0 {
        Map::empty()
    } else {
        let before = active_of(dispatched.drop_last(), canonical);
        let (vb, id) = dispatched.last();
        if canonical.contains_key(id@) {
            before.insert(vb, canonical[id@])
        } else {
            before
        }
    }
}

/// Names the node that is active for each vbucket. A vbucket whose endpoint has
/// no address has none.
pub fn active_nodes(dispatched: &Vec<(u16, String)>, canonical: &StringMap<String>) -> (r: HashMap<
    u16,
    String,
>)
    ensures
        r@ == active_of(dispatched@, canonical@),
{
    let mut r: HashMap<u16, String> = HashMap::new();
    let mut k: usize = 0;
    while k < dispatched.len()
        invariant
            k <= dispatched.len(),
            r@ == active_of(dispatched@.take(k as int), canonical@),
        decreases dispatched.len() - k,
    {
        assert(dispatched@.take(k + 1).drop_last() =~= dispatched@.take(k as int));
        if let Some(address) = canonical.get(dispatched[k].1.as_str()) {
            r.insert(dispatched[k].0, address.clone());
        }
        k += 1;
    }
    assert(dispatched@.take(dispatched@.len() as int) =~= dispatched@);
    r
}

/// A sweep for the UUIDs of `n` vbuckets.
pub struct VbuuidSweep {
    n: usize,
    active: HashMap<u16, String>,
    vbuuids: HashMap<u16, u64>,
    bad: Option<String>,
}

impl VbuuidSweep {
    pub closed spec fn spec_n(&self) -> usize {
        self.n
    }

    pub closed spec fn active(&self) -> Map<u16, String> {
        self.active@
    }

    pub closed spec fn vbuuids(&self) -> Map<u16, u64> {
        self.vbuuids@
    }

    /// The first line that could not be made sense of.
    pub closed spec fn bad(&self) -> Option<Seq<char>> {
        match self.bad {
            Some(line) => Some(line@),
            None => None,
        }
    }

    /// Begins a sweep, unless there is no vbucket map yet.
    pub fn begin(n: usize, active: HashMap<u16, String>) -> (r: Result<VbuuidSweep, Error>)
        ensures
            n == 0 ==> (r matches Err(e) && (e.spec_kind() matches ErrorKind::Message { msg } && msg@
                == "no vbucket map yet, so no scan vector can be built"@) && e.spec_retry_info() is None),
            n != 0 ==> (r matches Ok(sweep) && sweep.spec_n() == n && sweep.active() == active@
                && sweep.vbuuids() == Map::<u16, u64>::empty() && sweep.bad() is None),
    {
        if n == 0 {
            return Err(
                Error::new_message_error("no vbucket map yet, so no scan vector can be built"),
            );
        }
        Ok(VbuuidSweep { n, active, vbuuids: HashMap::new(), bad: None })
    }

    /// Takes a line from a node. The first that cannot be made sense of is
    /// kept for the error.
    pub fn line(&mut self, endpoint: &str, key: &[u8], value: &[u8])
        ensures
            final(self).spec_n() == old(self).spec_n(),
            final(self).active() == old(self).active(),
            ({
                let (after, sensible) = with_line(
                    old(self).vbuuids(),
                    old(self).active(),
                    endpoint@,
                    lossy(key@),
                    lossy(value@),
                );
                &&& final(self).vbuuids() == after
                &&& final(self).bad() == (if !sensible && old(self).bad() is None {
                    Some(lossy(key@) + " = "@ + quoted(lossy(value@)))
                } else {
                    old(self).bad()
                })
            }),
    {
        let key: String = lossy_text(key);
        let value: String = lossy_text(value);
        let sensible: bool = take_vbuuid_line(
            &mut self.vbuuids,
            &self.active,
            endpoint,
            key.as_str(),
            value.as_str(),
        );
        if !sensible && self.bad.is_none() {
            let mut line: String = key;
            line.append(" = ");
            let text: String = quote(value.as_str());
            line.append(text.as_str());
            self.bad = Some(line);
        }
    }

    /// The whole map, or an error: of the line that could not be made sense of,
    /// or of the vbuckets that are missing.
    pub fn finish(self) -> (r: Result<HashMap<u16, u64>, Error>)
        ensures
            match self.bad() {
                Some(line) => r matches Err(e) && (e.spec_kind() matches ErrorKind::Message { msg }
                    && msg@ == "could not parse vbucket-seqno "@ + line) && e.spec_retry_info() is None,
                None => {
                    let n = self.spec_n() as nat;
                    let have = self.vbuuids();
                    let whole = have.dom().len() == n && is_complete(n, have);
                    &&& whole ==> (r matches Ok(map) && map@ == have)
                    &&& !whole ==> (r matches Err(e) && (e.spec_kind() matches ErrorKind::Message {
                        msg,
                    } && msg@ == "got "@ + decimal(have.dom().len()) + " of "@ + decimal(n)
                        + " vbucket uuids; missing "@ + named(
                        missing((self.spec_n() as u16) as nat, have),
                    )) && e.spec_retry_info() is None)
                },
            },
    {
        if let Some(bad) = self.bad {
            let mut msg: String = owned("could not parse vbucket-seqno ");
            msg.append(bad.as_str());
            return Err(Error::new_message_error(msg.as_str()));
        }
        require_complete(self.n, self.vbuuids)
    }
}

/// What a caller who wants every vbucket's UUID gets.
pub enum VbuuidMap<M> {
    /// The map that is cached for the config in use.
    Cached(M),
    /// Nothing yet: the map has to be read, and cached under this revision. It
    /// is the one before the read, so a config that arrives meanwhile still
    /// makes the map stale.
    Read(Option<(i64, i64)>),
}

/// Looks for a cached map. `cached` is what the cache has for `revision`.
pub fn vbuuid_map<M>(revision: Option<(i64, i64)>, cached: Option<M>) -> (r: VbuuidMap<M>)
    ensures
        match cached {
            Some(map) => r == VbuuidMap::Cached(map),
            None => r == VbuuidMap::<M>::Read(revision),
        },
{
    match cached {
        Some(map) => VbuuidMap::Cached(map),
        None => VbuuidMap::Read(revision),
    }
}

/// The bucket of an operation that needs one.
pub fn required_bucket(bucket: Option<String>) -> (r: Result<String, Error>)
    ensures
        match bucket {
            Some(name) => r == Ok::<String, Error>(name),
            None => r matches Err(e) && e.spec_kind() == ErrorKind::NoBucket
                && e.spec_retry_info() is None,
        },
{
    match bucket {
        Some(name) => Ok(name),
        None => Err(Error::from(ErrorKind::NoBucket)),
    }
}

/// A replica's line changes nothing, whatever it says: only the node that is
/// active for a vbucket is listened to.
pub proof fn only_the_active_node_is_listened_to(
    out: Map<u16, u64>,
    active: Map<u16, String>,
    endpoint: Seq<char>,
    key: Seq<char>,
    value: Seq<char>,
)
    requires
        uuid_key(key) matches Some(vb) ==> !is_active(active, vb, endpoint),
    ensures
        with_line(out, active, endpoint, key, value) == (out, true),
{
}

proof fn lemma_uuid_key(vb: u16, field: Seq<char>)
    ensures
        uuid_key("vb_"@ + decimal(vb as nat) + ":"@ + field) == (if field == "uuid"@ {
            Some(vb)
        } else {
            None
        }),
{
    let key = "vb_"@ + decimal(vb as nat) + ":"@ + field;
    let number = decimal(vb as nat);
    reveal_strlit("vb_");
    reveal_strlit(":");
    crate::text::a_written_number_reads_back(vb as nat);
    assert(key.take(3) =~= "vb_"@);
    let rest = key.skip(3);
    assert(rest =~= number + ":"@ + field);
    assert forall|j: int| 0 <= j < number.len() implies rest[j] != ':' by {
        assert(rest[j] == number[j]);
        assert(crate::text::is_digit(number[j]));
    }
    assert(rest[number.len() as int] == ':');
    lemma_first_colon(rest, number.len() as int);
    assert(rest.skip(number.len() as int + 1) =~= field);
    assert(rest.take(number.len() as int) =~= number);
    assert(parsed_unsigned(number, u16::MAX as nat) == Some(vb as nat));
}

/// A line that gives a vbucket's UUID is taken from the node that is active for
/// the vbucket and from no other, and what is taken is the number it gives, for
/// the vbucket it names. A line about anything else of a vbucket leaves the map
/// alone.
pub proof fn a_uuid_is_taken_from_the_active_node(
    out: Map<u16, u64>,
    active: Map<u16, String>,
    endpoint: Seq<char>,
    vb: u16,
    value: u64,
    field: Seq<char>,
)
    ensures
        with_line(
            out,
            active,
            endpoint,
            "vb_"@ + decimal(vb as nat) + ":"@ + "uuid"@,
            decimal(value as nat),
        ) == (
            if active.contains_key(vb) && active[vb]@ == endpoint {
                out.insert(vb, value)
            } else {
                out
            },
            true,
        ),
        field != "uuid"@ ==> with_line(
            out,
            active,
            endpoint,
            "vb_"@ + decimal(vb as nat) + ":"@ + field,
            decimal(value as nat),
        ) == (out, true),
{
    lemma_uuid_key(vb, "uuid"@);
    lemma_uuid_key(vb, field);
    crate::text::a_written_number_reads_back(value as nat);
    assert(parsed_unsigned(decimal(value as nat), u64::MAX as nat) == Some(value as nat));
}

/// A UUID that is no number is an error where it comes from the node that is
/// active for the vbucket, and is passed over from any other. Either way the
/// map stays as it is.
pub proof fn a_uuid_that_is_no_number_is_an_error(
    out: Map<u16, u64>,
    active: Map<u16, String>,
    endpoint: Seq<char>,
    vb: u16,
    value: Seq<char>,
)
    requires
        value.len() == 0 || !crate::text::is_digit(value.last()),
    ensures
        with_line(
            out,
            active,
            endpoint,
            "vb_"@ + decimal(vb as nat) + ":"@ + "uuid"@,
            value,
        ) == (out, !(active.contains_key(vb) && active[vb]@ == endpoint)),
{
    lemma_uuid_key(vb, "uuid"@);
    let digits = crate::text::behind_plus(value);
    if digits.len() > 0 {
        assert(digits.last() == value.last());
        assert(!crate::text::is_digit(digits[digits.len() - 1]));
    }
}

/// A map of UUIDs is complete where every vbucket below the number there are
/// has one, and what is missing otherwise is listed in ascending order, each
/// once.
pub proof fn what_is_missing_is_listed_in_order(n: nat, have: Map<u16, u64>)
    requires
        n <= 0x10000,
    ensures
        is_complete(n, have) <==> forall|vb: u16| vb < n ==> #[trigger] have.contains_key(vb),
        forall|vb: u16| #[trigger]
            missing(n, have).contains(vb) <==> vb < n && !have.contains_key(vb),
        forall|i: int, j: int|
            0 <= i < j < missing(n, have).len() ==> missing(n, have)[i] < missing(n, have)[j],
{
    lemma_missing(n, have);
}

/// At most twenty numbers are named, separated by a comma and a space; of the
/// rest it is said how many there are.
pub proof fn at_most_twenty_are_named(numbers: Seq<u16>)
    ensures
        numbers.len() <= 20 ==> named(numbers) == joined(
            numbers.map_values(|n: u16| decimal(n as nat)),
            ", "@,
        ),
        numbers.len() > 20 ==> named(numbers) == joined(
            numbers.take(20).map_values(|n: u16| decimal(n as nat)),
            ", "@,
        ) + ", and "@ + decimal((numbers.len() - 20) as nat) + " more"@,
{
}

/// The node that is active for a vbucket goes by the address of the endpoint
/// that the vbucket is dispatched to. A vbucket whose endpoint has no address,
/// or that is dispatched nowhere, has none.
pub proof fn a_vbucket_is_active_where_it_is_dispatched_to(
    dispatched: Seq<(u16, String)>,
    canonical: Map<Seq<char>, String>,
    vb: u16,
)
    ensures
        active_of(dispatched, canonical).contains_key(vb) <==> exists|k: int|
            0 <= k < dispatched.len() && (#[trigger] dispatched[k]).0 == vb
                && canonical.contains_key(dispatched[k].1@),
        active_of(dispatched, canonical).contains_key(vb) ==> exists|k: int|
            0 <= k < dispatched.len() && (#[trigger] dispatched[k]).0 == vb
                && canonical.contains_key(dispatched[k].1@) && active_of(dispatched, canonical)[vb]
                == canonical[dispatched[k].1@],
    decreases dispatched.len(),
{
    if dispatched.len() > 0 {
        let front = dispatched.drop_last();
        let last = dispatched.len() - 1;
        a_vbucket_is_active_where_it_is_dispatched_to(front, canonical, vb);
        let taken = dispatched[last].0 == vb && canonical.contains_key(dispatched[last].1@);
        if !taken && active_of(front, canonical).contains_key(vb) {
            let k = choose|k: int|
                0 <= k < front.len() && (#[trigger] front[k]).0 == vb && canonical.contains_key(
                    front[k].1@,
                ) && active_of(front, canonical)[vb] == canonical[front[k].1@];
            assert(dispatched[k] == front[k]);
        }
        if exists|k: int|
            0 <= k < dispatched.len() && (#[trigger] dispatched[k]).0 == vb
                && canonical.contains_key(dispatched[k].1@) {
            let k = choose|k: int|
                0 <= k < dispatched.len() && (#[trigger] dispatched[k]).0 == vb
                    && canonical.contains_key(dispatched[k].1@);
            if k < last {
                assert(front[k] == dispatched[k]);
            }
        }
        if taken {
            assert(dispatched[last].0 == vb);
        }
    }
}

/// An endpoint is dispatched to where some vbucket's is it, the first and the
/// last of them as well.
pub proof fn an_endpoint_is_dispatched_to_by_any_vbucket(
    dispatched: Seq<(u16, String)>,
    ids: Seq<String>,
    i: int,
)
    ensures
        0 <= i < dispatched.len() ==> is_dispatched_to(dispatched, dispatched[i].1@),
        0 <= i < ids.len() ==> is_among(ids, ids[i]@),
        forall|id: Seq<char>| #[trigger]
            is_dispatched_to(dispatched, id) ==> dispatched.len() > 0,
        forall|id: Seq<char>| #[trigger] is_among(ids, id) ==> ids.len() > 0,
{
}

} // verus!
