//! The indexing service's HTTP surface: what indexes exist, and where.
//!
//! A node is named by its management port there, which is not the port a scan
//! is sent to. The router above does that join.
use http::StatusCode;
use vstd::prelude::*;
use vstd::slice::*;
use vstd::string::*;
use crate::indexerx::error::{condition_of, Error, ErrorKind, ServerError};
use crate::string_map::StringMap;
use crate::text::{
    a_text_starts_behind_its_white_space, a_written_number_reads_back, chars_of, decimal, find,
    first_position, first_position_is_the_first, leading_digits,
    leading_digits_reach_up_to_what_is_none, lowercased, occurs_at, owned, parse_unsigned_chars,
    parsed_unsigned, same_text, trimmed_start, white_space,
};

verus! {

/// One row of the index listing: one host, and the partitions it holds.
///
/// A partitioned index is several rows that share a `defn_id` and an
/// `inst_id`.
#[derive(Debug, Clone, PartialEq, Eq)]
pub struct IndexStatus {
    /// What a scan request addresses.
    pub defn_id: u64,
    /// Which copy of the index this is a piece of.
    pub inst_id: u64,
    pub index_name: String,
    pub bucket: String,
    pub scope: String,
    pub collection: String,
    pub status: String,
    pub is_primary: bool,
    pub partitioned: bool,
    /// This row's own share, not the index's total.
    pub num_partition: u32,
    /// The statement the index was created with.
    pub definition: String,
    /// Hosts by their management address, each with the partitions it holds.
    pub partition_map: StringMap<Vec<u64>>,
    pub hosts: Vec<String>,
    pub num_replica: u32,
    pub replica_id: u32,
    pub sec_exprs: Vec<String>,
    pub where_expr: Option<String>,
}

/// The partition count that a statement's `WITH` clause names: the number
/// behind the first colon behind `"num_partition"`, white space skipped. None
/// where nothing is named, or no number that fits, or zero.
pub open spec fn declared_in(definition: Seq<char>) -> Option<u32> {
    match first_position(definition, "\"num_partition\""@) {
        Some(at) => match first_position(definition.skip(at), ":"@) {
            Some(colon) => {
                let digits = leading_digits(trimmed_start(definition.skip(at).skip(colon + 1)));
                match parsed_unsigned(digits, u32::MAX as nat) {
                    Some(n) => if n > 0 {
                        Some(n as u32)
                    } else {
                        None
                    },
                    None => None,
                }
            },
            None => None,
        },
        None => None,
    }
}

impl IndexStatus {
    pub open spec fn ready(&self) -> bool {
        self.status@ == "Ready"@
    }

    /// Whether this row can serve a scan.
    pub fn is_ready(&self) -> (r: bool)
        ensures
            r == self.ready(),
    {
        same_text(self.status.as_str(), "Ready")
    }

    /// How many partitions the statement asked for, where it named a count.
    pub fn declared_partitions(&self) -> (r: Option<u32>)
        ensures
            r == declared_in(self.definition@),
    {
        let all: Vec<char> = chars_of(self.definition.as_str());
        let key: Vec<char> = chars_of("\"num_partition\"");
        let colon: Vec<char> = chars_of(":");
        let at: usize = match find(all.as_slice(), key.as_slice()) {
            Some(at) => at,
            None => {
                return None;
            },
        };
        let rest: &[char] = slice_subrange(all.as_slice(), at, all.len());
        assert(rest@ =~= all@.skip(at as int));
        let at_colon: usize = match find(rest, colon.as_slice()) {
            Some(at) => at,
            None => {
                return None;
            },
        };
        proof {
            reveal_strlit(":");
        }
        let behind: &[char] = slice_subrange(rest, at_colon + 1, rest.len());
        assert(behind@ =~= rest@.skip(at_colon + 1));
        let mut i: usize = 0;
        assert(behind@.skip(0) =~= behind@);
        while i < behind.len() && white_space(behind[i])
            invariant
                i <= behind.len(),
                trimmed_start(behind@) == trimmed_start(behind@.skip(i as int)),
            decreases behind.len() - i,
        {
            assert(behind@.skip(i as int).skip(1) =~= behind@.skip(i + 1));
            i += 1;
        }
        let trimmed: &[char] = slice_subrange(behind, i, behind.len());
        assert(trimmed@ =~= behind@.skip(i as int));
        assert(trimmed@ == trimmed_start(behind@));
        let mut j: usize = 0;
        assert(trimmed@.skip(0) =~= trimmed@);
        assert(trimmed@.take(0) + leading_digits(trimmed@) =~= leading_digits(trimmed@));
        while j < trimmed.len() && trimmed[j] >= '0' && trimmed[j] <= '9'
            invariant
                j <= trimmed.len(),
                leading_digits(trimmed@) == trimmed@.take(j as int) + leading_digits(
                    trimmed@.skip(j as int),
                ),
            decreases trimmed.len() - j,
        {
            proof {
                let tail = trimmed@.skip(j as int);
                assert(tail.skip(1) =~= trimmed@.skip(j + 1));
                assert(trimmed@.take(j as int) + (seq![tail[0]] + leading_digits(tail.skip(1)))
                    =~= trimmed@.take(j + 1) + leading_digits(trimmed@.skip(j + 1)));
            }
            j += 1;
        }
        let digits: &[char] = slice_subrange(trimmed, 0, j);
        proof {
            assert(leading_digits(trimmed@.skip(j as int)) =~= Seq::<char>::empty());
            assert(digits@ =~= trimmed@.take(j as int));
            assert(digits@ =~= leading_digits(trimmed@));
        }
        match parse_unsigned_chars(digits, u32::MAX as u64) {
            Some(n) => if n > 0 {
                Some(n as u32)
            } else {
                None
            },
            None => None,
        }
    }

    /// The bucket, scope and collection the index is on.
    pub fn keyspace(&self) -> (r: (&str, &str, &str))
        ensures
            r.0@ == self.bucket@,
            r.1@ == self.scope@,
            r.2@ == self.collection@,
    {
        (self.bucket.as_str(), self.scope.as_str(), self.collection.as_str())
    }
}

/// The reason phrase that belongs to an HTTP status code.
pub uninterp spec fn status_reason(code: u16) -> Seq<char>;

/// `http::StatusCode` through its `Display`: the code, a space, and the reason
/// phrase, which is named `status_reason`. The type holds codes of three
/// digits only.
#[verifier::external_body]
fn status_line(code: u16) -> (r: String)
    requires
        100 <= code < 1000,
    ensures
        r@ == decimal(code as nat) + " "@ + status_reason(code),
{
    StatusCode::from_u16(code).unwrap().to_string()
}

/// What `String::from_utf8_lossy` makes of bytes.
pub uninterp spec fn lossy(bytes: Seq<u8>) -> Seq<char>;

/// `String::from_utf8_lossy`, whose result is named `lossy`. Believed of it
/// besides: valid UTF-8 is decoded as it is.
#[verifier::external_body]
pub(crate) fn lossy_text(bytes: &[u8]) -> (r: String)
    ensures
        r@ == lossy(bytes@),
        vstd::utf8::valid_utf8(bytes@) ==> r@ == vstd::utf8::decode_utf8(bytes@),
{
    String::from_utf8_lossy(bytes).into_owned()
}

/// Where the listing is asked for.
pub open spec fn status_url(endpoint: Seq<char>, get_all: bool) -> Seq<char> {
    endpoint + "/"@ + (if get_all {
        "getIndexStatus?getAll=true"@
    } else {
        "getIndexStatus"@
    })
}

/// Where the listing is asked for.
pub fn index_status_url(endpoint: &str, get_all: bool) -> (r: String)
    ensures
        r@ == status_url(endpoint@, get_all),
{
    let mut r: String = owned(endpoint);
    r.append("/");
    if get_all {
        r.append("getIndexStatus?getAll=true");
    } else {
        r.append("getIndexStatus");
    }
    r
}

/// How a refused listing reads.
pub open spec fn refused_listing(line: Seq<char>, body: Seq<char>) -> Seq<char> {
    "getIndexStatus: "@ + line + ": "@ + body
}

/// Whether a reply to the listing is one to read: a status of the 200s is. The
/// endpoint reports a failure as a status and a plain text, which is
/// classified like one that came over the wire.
pub fn check_index_status(code: u16, body: &[u8]) -> (r: Result<(), Error>)
    requires
        100 <= code < 1000,
    ensures
        200 <= code < 300 ==> r is Ok,
        !(200 <= code < 300) ==> {
            let text = refused_listing(
                decimal(code as nat) + " "@ + status_reason(code),
                lossy(body@),
            );
            &&& r is Err
            &&& r->Err_0.spec_kind() matches ErrorKind::Server(e)
            &&& e.raw_text() == text
            &&& e.condition() == condition_of(lowercased(text))
            &&& r->Err_0.source_text() is None
        },
{
    if code >= 200 && code < 300 {
        return Ok(());
    }
    let line: String = status_line(code);
    let text: String = lossy_text(body);
    Err(refuse_index_status(line.as_str(), text.as_str()))
}

/// The error that a refused listing becomes.
pub fn refuse_index_status(line: &str, body: &str) -> (r: Error)
    ensures
        r.spec_kind() matches ErrorKind::Server(e) && e.raw_text() == refused_listing(line@, body@)
            && e.condition() == condition_of(lowercased(refused_listing(line@, body@))),
        r.source_text() is None,
{
    let mut text: String = owned("getIndexStatus: ");
    text.append(line);
    text.append(": ");
    text.append(body);
    Error::new_server_error(ServerError::classify(text.as_str()))
}

/// The error that a listing which is no readable JSON becomes.
pub fn unreadable_index_status(json_error: &str) -> (r: Error)
    ensures
        r.spec_kind() matches ErrorKind::Decoding { msg } && msg@
            == "getIndexStatus returned unreadable JSON: "@ + json_error@,
        r.source_text() is None,
{
    let text: String = owned("getIndexStatus returned unreadable JSON: ").concat(json_error);
    Error::new_decoding_error(text.as_str())
}

/// A statement that names a count of partitions declares that count: the number
/// behind the first colon behind `"num_partition"`. Zero is none, and neither
/// is what does not fit.
pub proof fn a_count_is_read_where_it_is_declared(
    front: Seq<char>,
    gap: Seq<char>,
    space: Seq<char>,
    n: nat,
    rest: Seq<char>,
)
    requires
        ({
            let all = front + "\"num_partition\""@ + gap + seq![':'] + space + decimal(n) + rest;
            forall|i: int|
                0 <= i < front.len() ==> !#[trigger] occurs_at(all, "\"num_partition\""@, i)
        }),
        forall|i: int| 0 <= i < gap.len() ==> #[trigger] gap[i] != ':',
        forall|i: int|
            0 <= i < space.len() ==> #[trigger] space[i] == ' ' || space[i] == '\t' || space[i]
                == '\n' || space[i] == '\r',
        rest.len() == 0 || rest[0] < '0' || rest[0] > '9',
    ensures
        declared_in(
            front + "\"num_partition\""@ + gap + seq![':'] + space + decimal(n) + rest,
        ) == (if 0 < n <= 0xffff_ffff {
            Some(n as u32)
        } else {
            None
        }),
{
    let key = "\"num_partition\""@;
    let all = front + key + gap + seq![':'] + space + decimal(n) + rest;
    reveal_strlit("\"num_partition\"");
    reveal_strlit(":");
    assert(":"@ =~= seq![':']);
    let at = front.len() as int;
    assert(all.subrange(at, at + key.len()) =~= key);
    assert(occurs_at(all, key, at));
    first_position_is_the_first(all, key);
    assert(first_position(all, key) == Some(at));
    let behind = all.skip(at);
    let colon = (key.len() + gap.len()) as int;
    assert(behind =~= key + gap + seq![':'] + space + decimal(n) + rest);
    assert(behind.subrange(colon, colon + 1) =~= ":"@);
    assert(occurs_at(behind, ":"@, colon));
    first_position_is_the_first(behind, ":"@);
    let found = first_position(behind, ":"@)->0;
    assert(found == colon) by {
        if found < colon {
            assert(behind.subrange(found, found + 1)[0] == behind[found]);
            if found >= key.len() {
                assert(behind[found] == gap[found - key.len()]);
            } else {
                assert(behind[found] == key[found]);
            }
            assert(false);
        }
        if found > colon {
            assert(!occurs_at(behind, ":"@, colon));
        }
    }
    let number = decimal(n) + rest;
    assert(behind.skip(colon + 1) =~= space + number);
    a_written_number_reads_back(n);
    assert forall|i: int| 0 <= i < decimal(n).len() implies '0' <= #[trigger] decimal(n)[i]
        <= '9' by {
        assert(crate::text::is_digit(decimal(n)[i]));
    }
    assert('0' <= decimal(n)[0] <= '9');
    assert(number[0] == decimal(n)[0]);
    a_text_starts_behind_its_white_space(space, number);
    leading_digits_reach_up_to_what_is_none(decimal(n), rest);
}

/// The listing is asked for by its name, and with all its rows where all are
/// wanted.
pub proof fn the_listing_is_asked_for_by_name(endpoint: Seq<char>)
    ensures
        status_url(endpoint, false) == endpoint + "/getIndexStatus"@,
        status_url(endpoint, true) == endpoint + "/getIndexStatus?getAll=true"@,
{
    reveal_strlit("/");
    reveal_strlit("getIndexStatus");
    reveal_strlit("getIndexStatus?getAll=true");
    reveal_strlit("/getIndexStatus");
    reveal_strlit("/getIndexStatus?getAll=true");
    assert(status_url(endpoint, false) =~= endpoint + "/getIndexStatus"@);
    assert(status_url(endpoint, true) =~= endpoint + "/getIndexStatus?getAll=true"@);
}

/// A row serves scans where its status says `Ready`, and nowhere else.
pub proof fn a_row_is_ready_where_it_says_so(row: IndexStatus)
    ensures
        row.ready() <==> row.status@ == seq!['R', 'e', 'a', 'd', 'y'],
{
    reveal_strlit("Ready");
    assert("Ready"@ =~= seq!['R', 'e', 'a', 'd', 'y']);
}

/// A refused listing reads as what was asked for, how it was answered and what
/// the answer said, in that order.
pub proof fn a_refused_listing_says_how_it_was_answered(line: Seq<char>, body: Seq<char>)
    ensures
        refused_listing(line, body) == "getIndexStatus: "@ + line + ": "@ + body,
{
}

} // verus!
