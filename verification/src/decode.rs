//! Decoding of lookup API response bodies: the status classifier and the
//! single and batch response decoders.

use vstd::prelude::*;

use crate::gsberror::GSBError;
use crate::text::{split_char, split_str, str_eq, views_of};

verus! {

/// One threat category a URL may be found in, as well as a value, `Clean`,
/// used as a placeholder when the URL is found in no category.  `Clean`
/// only appears in batch results; in single-lookup results "no matches" is
/// the empty status set.
#[derive(Debug, Clone, Copy, PartialEq, Eq, Structural)]
pub enum Status {
    Clean,
    Phishing,
    Malware,
    Unwanted,
}

/// A set of [`Status`] values: the decoded result for one URL.
/// Duplicates collapse and order is irrelevant.
#[derive(Debug, Clone, Copy, PartialEq, Eq, Structural)]
pub struct StatusSet {
    pub clean: bool,
    pub phishing: bool,
    pub malware: bool,
    pub unwanted: bool,
}

impl View for StatusSet {
    type V = Set<Status>;

    open spec fn view(&self) -> Set<Status> {
        Set::new(
            |st: Status|
                match st {
                    Status::Clean => self.clean,
                    Status::Phishing => self.phishing,
                    Status::Malware => self.malware,
                    Status::Unwanted => self.unwanted,
                },
        )
    }
}

impl StatusSet {
    /// The set with no statuses in it.
    pub fn empty() -> (r: StatusSet)
        ensures
            r@ == Set::<Status>::empty(),
    {
        let r = StatusSet { clean: false, phishing: false, malware: false, unwanted: false };
        proof {
            assert(r@ =~= Set::<Status>::empty());
        }
        r
    }

    /// Adds `st` to the set.
    pub fn insert(&mut self, st: Status)
        ensures
            final(self)@ == old(self)@.insert(st),
    {
        match st {
            Status::Clean => self.clean = true,
            Status::Phishing => self.phishing = true,
            Status::Malware => self.malware = true,
            Status::Unwanted => self.unwanted = true,
        }
        proof {
            assert(self@ =~= old(self)@.insert(st));
        }
    }

    /// Whether `st` is in the set.
    pub fn contains(&self, st: Status) -> (r: bool)
        ensures
            r == self@.contains(st),
    {
        match st {
            Status::Clean => self.clean,
            Status::Phishing => self.phishing,
            Status::Malware => self.malware,
            Status::Unwanted => self.unwanted,
        }
    }

    /// Whether the set is empty.
    pub fn is_empty(&self) -> (r: bool)
        ensures
            r == (self@ == Set::<Status>::empty()),
    {
        let r = !self.clean && !self.phishing && !self.malware && !self.unwanted;
        proof {
            if r {
                assert(self@ =~= Set::<Status>::empty());
            } else {
                assert(self@ != Set::<Status>::empty()) by {
                    if self.clean {
                        assert(self@.contains(Status::Clean));
                    } else if self.phishing {
                        assert(self@.contains(Status::Phishing));
                    } else if self.malware {
                        assert(self@.contains(Status::Malware));
                    } else {
                        assert(self@.contains(Status::Unwanted));
                    }
                }
            }
        }
        r
    }
}

/// The set holding exactly the statuses of `sts`.
pub open spec fn status_set_of(sts: Seq<Status>) -> Set<Status>
    decreases sts.len(),
{
    if sts.len() == 0 {
        Set::<Status>::empty()
    } else {
        status_set_of(sts.drop_last()).insert(sts.last())
    }
}

/// What [`classify`] returns for a token: `Err` carries the offending
/// token itself.
pub open spec fn classify_spec(t: Seq<char>) -> Result<Option<Status>, Seq<char>> {
    if t == "phishing"@ {
        Ok(Some(Status::Phishing))
    } else if t == "malware"@ {
        Ok(Some(Status::Malware))
    } else if t == "unwanted"@ {
        Ok(Some(Status::Unwanted))
    } else if t == "ok"@ {
        Ok(Some(Status::Clean))
    } else if t.len() == 0 {
        Ok(None)
    } else {
        Err(t)
    }
}

/// Whether the classifier outcome `r` reports the table entry `s`.
pub open spec fn classify_matches(r: Result<Option<Status>, GSBError>, s: Result<
    Option<Status>,
    Seq<char>,
>) -> bool {
    match (r, s) {
        (Ok(a), Ok(b)) => a == b,
        (Err(GSBError::MalformedMessage(m)), Err(t)) => m@ == t,
        _ => false,
    }
}

/// Maps a single response token to a status, to nothing (an empty token),
/// or to [`GSBError::MalformedMessage`] carrying the token itself.
pub fn classify(token: &str) -> (r: Result<Option<Status>, GSBError>)
    ensures
        classify_matches(r, classify_spec(token@)),
{
    if str_eq(token, "phishing") {
        Ok(Some(Status::Phishing))
    } else if str_eq(token, "malware") {
        Ok(Some(Status::Malware))
    } else if str_eq(token, "unwanted") {
        Ok(Some(Status::Unwanted))
    } else if str_eq(token, "ok") {
        Ok(Some(Status::Clean))
    } else if token.unicode_len() == 0 {
        Ok(None)
    } else {
        Err(GSBError::MalformedMessage(token.to_owned()))
    }
}

/// The views of a vector of borrowed tokens.
pub open spec fn token_views(v: Seq<&str>) -> Seq<Seq<char>> {
    v.map_values(|t: &str| t@)
}

/// The statuses denoted by `tokens`, in token order: empty tokens
/// contribute nothing, and the first unrecognized token aborts with that
/// token as the error.
pub open spec fn statuses_of(tokens: Seq<Seq<char>>) -> Result<Seq<Status>, Seq<char>>
    decreases tokens.len(),
{
    if tokens.len() == 0 {
        Ok(Seq::<Status>::empty())
    } else {
        match classify_spec(tokens[0]) {
            Err(t) => Err(t),
            Ok(opt) => match statuses_of(tokens.drop_first()) {
                Err(t) => Err(t),
                Ok(rest) => match opt {
                    None => Ok(rest),
                    Some(st) => Ok(seq![st] + rest),
                },
            },
        }
    }
}

/// `acc` followed by whatever statuses the remaining tokens denote.
pub open spec fn statuses_continue(acc: Seq<Status>, suffix: Result<Seq<Status>, Seq<char>>) -> Result<
    Seq<Status>,
    Seq<char>,
> {
    match suffix {
        Err(t) => Err(t),
        Ok(rest) => Ok(acc + rest),
    }
}

/// Whether the decoder outcome `r` reports the statuses `s`.
pub open spec fn statuses_match(r: Result<Vec<Status>, GSBError>, s: Result<
    Seq<Status>,
    Seq<char>,
>) -> bool {
    match (r, s) {
        (Ok(v), Ok(sts)) => v@ == sts,
        (Err(GSBError::MalformedMessage(m)), Err(t)) => m@ == t,
        _ => false,
    }
}

/// Builds the statuses denoted by a sequence of tokens, in token order,
/// as [`statuses_of`] describes.
pub fn statuses_from_vec(tokens: &Vec<&str>) -> (r: Result<Vec<Status>, GSBError>)
    ensures
        statuses_match(r, statuses_of(token_views(tokens@))),
{
    let ghost full = token_views(tokens@);
    let mut out: Vec<Status> = Vec::new();
    let mut i: usize = 0;
    proof {
        assert(full.subrange(0, full.len() as int) =~= full);
        if statuses_of(full) is Ok {
            assert(out@ + statuses_of(full)->Ok_0 =~= statuses_of(full)->Ok_0);
        }
    }
    while i < tokens.len()
        invariant
            i <= tokens@.len(),
            full == token_views(tokens@),
            statuses_of(full) == statuses_continue(
                out@,
                statuses_of(full.subrange(i as int, full.len() as int)),
            ),
        decreases tokens@.len() - i,
    {
        let ghost suffix = full.subrange(i as int, full.len() as int);
        proof {
            assert(suffix[0] == tokens@[i as int]@);
            assert(suffix.drop_first() =~= full.subrange(i + 1, full.len() as int));
        }
        match classify(tokens[i]) {
            Err(e) => {
                return Err(e);
            },
            Ok(None) => {},
            Ok(Some(st)) => {
                proof {
                    let rest = statuses_of(full.subrange(i + 1, full.len() as int));
                    if rest is Ok {
                        assert(out@ + (seq![st] + rest->Ok_0) =~= out@.push(st) + rest->Ok_0);
                    }
                }
                out.push(st);
            },
        }
        i = i + 1;
    }
    proof {
        assert(full.subrange(full.len() as int, full.len() as int) =~= Seq::<Seq<char>>::empty());
        assert(out@ + Seq::<Status>::empty() =~= out@);
    }
    Ok(out)
}

/// The set holding exactly the statuses that the tokens of `body`, split
/// on `','`, denote; `Err` carries the first unrecognized token.
pub open spec fn decode_single_spec(body: Seq<char>) -> Result<Set<Status>, Seq<char>> {
    match statuses_of(split_char(body, ',')) {
        Err(t) => Err(t),
        Ok(sts) => Ok(status_set_of(sts)),
    }
}

/// Whether the decoder outcome `r` reports the status set `s`.
pub open spec fn single_matches(r: Result<StatusSet, GSBError>, s: Result<
    Set<Status>,
    Seq<char>,
>) -> bool {
    match (r, s) {
        (Ok(ss), Ok(set)) => ss@ == set,
        (Err(GSBError::MalformedMessage(m)), Err(t)) => m@ == t,
        _ => false,
    }
}

/// Decodes a single-lookup response body: splits `body` on `','`,
/// classifies each token, and accumulates the statuses into a set.
/// An empty token contributes nothing; an unrecognized token aborts with
/// [`GSBError::MalformedMessage`] carrying the exact offending text.
pub fn decode_single(body: &str) -> (r: Result<StatusSet, GSBError>)
    ensures
        single_matches(r, decode_single_spec(body@)),
{
    let tokens: Vec<String> = split_str(body, ',');
    let mut refs: Vec<&str> = Vec::new();
    let mut i: usize = 0;
    while i < tokens.len()
        invariant
            i <= tokens@.len(),
            token_views(refs@) == views_of(tokens@).subrange(0, i as int),
        decreases tokens@.len() - i,
    {
        let t: &str = tokens[i].as_str();
        proof {
            assert(t@ == tokens@[i as int]@);
            let lhs = token_views(refs@.push(t));
            let rhs = views_of(tokens@).subrange(0, i + 1);
            assert(token_views(refs@).len() == refs@.len());
            assert(views_of(tokens@).subrange(0, i as int).len() == i as int);
            assert(refs@.len() == i as int);
            assert(lhs.len() == i + 1);
            assert(rhs.len() == i + 1);
            assert forall|j: int| 0 <= j < i + 1 implies lhs[j] == rhs[j] by {
                if j < i {
                    assert(token_views(refs@)[j] == views_of(tokens@).subrange(0, i as int)[j]);
                    assert(lhs[j] == token_views(refs@)[j]);
                } else {
                    assert(lhs[j] == t@);
                }
            }
            assert(lhs =~= rhs);
        }
        refs.push(t);
        i = i + 1;
    }
    proof {
        assert(views_of(tokens@).subrange(0, tokens@.len() as int) =~= views_of(tokens@));
    }
    match statuses_from_vec(&refs) {
        Err(e) => Err(e),
        Ok(v) => {
            let mut ss = StatusSet::empty();
            let mut j: usize = 0;
            proof {
                assert(v@.subrange(0, 0) =~= Seq::<Status>::empty());
            }
            while j < v.len()
                invariant
                    j <= v@.len(),
                    ss@ == status_set_of(v@.subrange(0, j as int)),
                decreases v@.len() - j,
            {
                proof {
                    assert(v@.subrange(0, j + 1).drop_last() =~= v@.subrange(0, j as int));
                    assert(v@.subrange(0, j + 1).last() == v@[j as int]);
                }
                let st = v[j];
                ss.insert(st);
                j = j + 1;
            }
            proof {
                assert(v@.subrange(0, v@.len() as int) =~= v@);
            }
            Ok(ss)
        },
    }
}

/// The status set of each line of `body` (split on `'\n'`), provided the
/// body has exactly `expected` lines; `Err` carries the first
/// unrecognized token, or the whole body on a line-count mismatch.
pub open spec fn decode_batch_spec(body: Seq<char>, expected: nat) -> Result<
    Seq<Set<Status>>,
    Seq<char>,
> {
    let lines = split_char(body, '\n');
    if lines.len() != expected {
        Err(body)
    } else {
        line_sets_of(lines)
    }
}

/// The status set denoted by each line, in line order, with the first
/// unrecognized token as the error.
pub open spec fn line_sets_of(lines: Seq<Seq<char>>) -> Result<Seq<Set<Status>>, Seq<char>>
    decreases lines.len(),
{
    if lines.len() == 0 {
        Ok(Seq::<Set<Status>>::empty())
    } else {
        match decode_single_spec(lines[0]) {
            Err(t) => Err(t),
            Ok(s) => match line_sets_of(lines.drop_first()) {
                Err(t) => Err(t),
                Ok(rest) => Ok(seq![s] + rest),
            },
        }
    }
}

/// `acc` followed by whatever sets the remaining lines denote.
pub open spec fn line_sets_continue(acc: Seq<Set<Status>>, suffix: Result<
    Seq<Set<Status>>,
    Seq<char>,
>) -> Result<Seq<Set<Status>>, Seq<char>> {
    match suffix {
        Err(t) => Err(t),
        Ok(rest) => Ok(acc + rest),
    }
}

/// The views of a vector of status sets.
pub open spec fn set_views(v: Seq<StatusSet>) -> Seq<Set<Status>> {
    v.map_values(|ss: StatusSet| ss@)
}

/// Whether the decoder outcome `r` reports the per-line sets `s`.
pub open spec fn batch_matches(r: Result<Vec<StatusSet>, GSBError>, s: Result<
    Seq<Set<Status>>,
    Seq<char>,
>) -> bool {
    match (r, s) {
        (Ok(v), Ok(sets)) => set_views(v@) == sets,
        (Err(GSBError::MalformedMessage(m)), Err(t)) => m@ == t,
        _ => false,
    }
}

/// Decodes a batch-lookup response body: splits `body` on `'\n'` and
/// decodes each line like a single-lookup body.  The result has exactly
/// one status set per submitted URL, in submission order: a line is never
/// dropped, even when its status set is empty.
pub fn decode_batch(body: &str, expected: usize) -> (r: Result<Vec<StatusSet>, GSBError>)
    ensures
        batch_matches(r, decode_batch_spec(body@, expected as nat)),
        r matches Ok(v) ==> v@.len() == expected,
{
    let lines: Vec<String> = split_str(body, '\n');
    if lines.len() != expected {
        return Err(GSBError::MalformedMessage(body.to_owned()));
    }
    let ghost full = views_of(lines@);
    let mut out: Vec<StatusSet> = Vec::new();
    let mut i: usize = 0;
    proof {
        assert(full.subrange(0, full.len() as int) =~= full);
        if line_sets_of(full) is Ok {
            assert(set_views(out@) + line_sets_of(full)->Ok_0 =~= line_sets_of(full)->Ok_0);
        }
    }
    while i < lines.len()
        invariant
            i <= lines@.len(),
            out@.len() == i,
            full == views_of(lines@),
            views_of(lines@) == split_char(body@, '\n'),
            lines@.len() == expected,
            line_sets_of(full) == line_sets_continue(
                set_views(out@),
                line_sets_of(full.subrange(i as int, full.len() as int)),
            ),
        decreases lines@.len() - i,
    {
        let ghost suffix = full.subrange(i as int, full.len() as int);
        proof {
            assert(suffix[0] == lines@[i as int]@);
            assert(suffix.drop_first() =~= full.subrange(i + 1, full.len() as int));
        }
        match decode_single(lines[i].as_str()) {
            Err(e) => {
                proof {
                    assert(decode_single_spec(suffix[0]) is Err);
                    assert(line_sets_of(suffix) == Err::<Seq<Set<Status>>, Seq<char>>(
                        decode_single_spec(suffix[0])->Err_0,
                    ));
                    assert(line_sets_of(full) == line_sets_of(suffix));
                    assert(decode_batch_spec(body@, expected as nat) == line_sets_of(full));
                }
                return Err(e);
            },
            Ok(ss) => {
                proof {
                    let rest = line_sets_of(full.subrange(i + 1, full.len() as int));
                    assert(set_views(out@.push(ss)) =~= set_views(out@).push(ss@));
                    if rest is Ok {
                        assert(set_views(out@) + (seq![ss@] + rest->Ok_0) =~= set_views(out@).push(
                            ss@,
                        ) + rest->Ok_0);
                    }
                }
                out.push(ss);
            },
        }
        i = i + 1;
    }
    proof {
        assert(full.subrange(full.len() as int, full.len() as int) =~= Seq::<Seq<char>>::empty());
        assert(set_views(out@) + Seq::<Set<Status>>::empty() =~= set_views(out@));
    }
    Ok(out)
}

/// Checks the HTTP status code of a lookup response: only `200` and `204`
/// are accepted; any other code yields [`GSBError::HTTPStatusCode`].
pub fn check_status(code: u16) -> (r: Result<(), GSBError>)
    ensures
        r is Ok <==> (code == 200 || code == 204),
        r is Err ==> r == Err::<(), GSBError>(GSBError::HTTPStatusCode(code)),
{
    if code == 200 || code == 204 {
        Ok(())
    } else {
        Err(GSBError::HTTPStatusCode(code))
    }
}

/// Decides a single-lookup exchange from the transport's answer: on `200`
/// the body is decoded as [`decode_single`] describes; on `204` (no
/// content) the result is the empty status set and the body is not read;
/// any other status code yields [`GSBError::HTTPStatusCode`] and the body
/// is not parsed.
pub fn decode_single_response(code: u16, body: &str) -> (r: Result<StatusSet, GSBError>)
    ensures
        code == 200 ==> single_matches(r, decode_single_spec(body@)),
        code == 204 ==> (r matches Ok(ss) && ss@ == Set::<Status>::empty()),
        !(code == 200 || code == 204) ==> r == Err::<StatusSet, GSBError>(
            GSBError::HTTPStatusCode(code),
        ),
{
    match check_status(code) {
        Err(e) => Err(e),
        Ok(()) => {
            if code == 204 {
                Ok(StatusSet::empty())
            } else {
                decode_single(body)
            }
        },
    }
}

/// Decides a batch-lookup exchange from the transport's answer: on `200`
/// the body is decoded as [`decode_batch`] describes, against the number
/// of URLs submitted; on `204` (no content) every submitted URL is clean
/// and the body is not read; any other status code yields
/// [`GSBError::HTTPStatusCode`] and the body is not parsed.  A successful
/// result always has exactly one status set per submitted URL, in
/// submission order.
pub fn decode_batch_response(code: u16, body: &str, count: usize) -> (r: Result<
    Vec<StatusSet>,
    GSBError,
>)
    ensures
        code == 200 ==> batch_matches(r, decode_batch_spec(body@, count as nat)),
        code == 204 ==> (r matches Ok(v) && v@.len() == count && forall|i: int|
            0 <= i < count ==> v@[i]@ == Set::<Status>::empty()),
        !(code == 200 || code == 204) ==> r == Err::<Vec<StatusSet>, GSBError>(
            GSBError::HTTPStatusCode(code),
        ),
        r matches Ok(v) ==> v@.len() == count,
{
    match check_status(code) {
        Err(e) => Err(e),
        Ok(()) => {
            if code == 204 {
                let mut v: Vec<StatusSet> = Vec::new();
                let mut i: usize = 0;
                while i < count
                    invariant
                        i <= count,
                        v@.len() == i,
                        forall|j: int| 0 <= j < i ==> v@[j]@ == Set::<Status>::empty(),
                    decreases count - i,
                {
                    v.push(StatusSet::empty());
                    i = i + 1;
                }
                Ok(v)
            } else {
                decode_batch(body, count)
            }
        },
    }
}

} // verus!
