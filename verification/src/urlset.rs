//! The servers a file can be downloaded from.
use vstd::prelude::*;

verus! {

/// The text of a URL (what `Url::as_str` returns).
pub uninterp spec fn url_text(url: url::Url) -> Seq<char>;

/// What `Url::parse` makes of `input`: the text of the parsed URL, or `None`
/// when the input is not a URL.
pub uninterp spec fn parsed_url_text(input: Seq<char>) -> Option<Seq<char>>;

/// Calls `Url::clone`, which copies every field of the URL.
#[verifier::external_body]
fn clone_url(url: &url::Url) -> (r: url::Url)
    ensures
        r == *url,
{
    url.clone()
}

/// Compares two URLs with `Url`'s `==`, which compares their text.
#[verifier::external_body]
fn same_url(a: &url::Url, b: &url::Url) -> (r: bool)
    ensures
        r == (url_text(*a) == url_text(*b)),
{
    a == b
}

/// Calls `Url::parse`.
#[verifier::external_body]
fn parse_url(input: &str) -> (r: Result<url::Url, url::ParseError>)
    ensures
        r is Ok <==> parsed_url_text(input@) is Some,
        r matches Ok(u) ==> url_text(u) == parsed_url_text(input@)->Some_0,
{
    url::Url::parse(input)
}

/// `attempt_nr + worker_nr`, wrapping at the width of `usize`.
pub open spec fn rotated_attempt(worker_nr: u8, attempt_nr: usize) -> int {
    if attempt_nr + worker_nr > usize::MAX {
        attempt_nr + worker_nr - (usize::MAX + 1)
    } else {
        attempt_nr + worker_nr
    }
}

/// Which server worker `worker_nr` asks at its attempt `attempt_nr`, of `n` servers.
pub open spec fn url_index(worker_nr: u8, attempt_nr: usize, n: nat) -> int {
    rotated_attempt(worker_nr, attempt_nr) % (n as int)
}

/// `url` is one of `list`.
pub open spec fn in_list(list: Seq<url::Url>, url: url::Url) -> bool {
    exists|m: int| 0 <= m < list.len() && list[m] == url
}

/// One of `list` has the text `text`.
pub open spec fn text_in_list(list: Seq<url::Url>, text: Seq<char>) -> bool {
    exists|i: int| 0 <= i < list.len() && url_text(list[i]) == text
}

/// The servers that hold the same file.
#[derive(Clone)]
pub struct UrlSet {
    pub urls: Vec<url::Url>,
}

impl UrlSet {
    /// Each distinct server once, in order of first appearance.
    pub fn all(&self) -> (r: Vec<url::Url>)
        ensures
            forall|i: int| 0 <= i < r@.len() ==> #[trigger] in_list(self.urls@, r@[i]),
            forall|j: int|
                0 <= j < self.urls@.len() ==> #[trigger] text_in_list(r@, url_text(self.urls@[j])),
            forall|i: int, k: int|
                0 <= i < k < r@.len() ==> url_text(#[trigger] r@[i]) != url_text(#[trigger] r@[k]),
    {
        let mut out: Vec<url::Url> = Vec::new();
        let mut j: usize = 0;
        while j < self.urls.len()
            invariant
                j <= self.urls@.len(),
                forall|i: int| 0 <= i < out@.len() ==> #[trigger] in_list(self.urls@, out@[i]),
                forall|m: int|
                    0 <= m < j ==> #[trigger] text_in_list(out@, url_text(self.urls@[m])),
                forall|i: int, k: int|
                    0 <= i < k < out@.len() ==> url_text(#[trigger] out@[i]) != url_text(
                        #[trigger] out@[k],
                    ),
            decreases self.urls@.len() - j,
        {
            let candidate = &self.urls[j];
            let mut seen = false;
            let mut i: usize = 0;
            while i < out.len()
                invariant
                    i <= out@.len(),
                    j < self.urls@.len(),
                    *candidate == self.urls@[j as int],
                    !seen ==> forall|k: int|
                        0 <= k < i ==> url_text(#[trigger] out@[k]) != url_text(*candidate),
                    seen ==> text_in_list(out@, url_text(*candidate)),
                decreases out@.len() - i,
            {
                if same_url(&out[i], candidate) {
                    seen = true;
                    assert(url_text(out@[i as int]) == url_text(*candidate));
                }
                i = i + 1;
            }
            let ghost before = out@;
            if !seen {
                out.push(clone_url(candidate));
                proof {
                    assert(out@[out@.len() - 1] == self.urls@[j as int]);
                    assert(in_list(self.urls@, self.urls@[j as int]));
                    assert forall|i: int| 0 <= i < out@.len() implies #[trigger] in_list(
                        self.urls@,
                        out@[i],
                    ) by {
                        if i < before.len() {
                            assert(out@[i] == before[i]);
                        }
                    }
                    assert forall|m: int| 0 <= m < j + 1 implies #[trigger] text_in_list(
                        out@,
                        url_text(self.urls@[m]),
                    ) by {
                        if m < j {
                            assert(text_in_list(before, url_text(self.urls@[m])));
                            let i0 = choose|i: int|
                                0 <= i < before.len() && url_text(before[i]) == url_text(
                                    self.urls@[m],
                                );
                            assert(out@[i0] == before[i0]);
                        } else {
                            assert(url_text(out@[before.len() as int]) == url_text(
                                self.urls@[m],
                            ));
                        }
                    }
                    assert forall|i: int, k: int|
                        0 <= i < k < out@.len() implies url_text(#[trigger] out@[i]) != url_text(
                        #[trigger] out@[k]) by {
                        if k == before.len() {
                            assert(out@[i] == before[i]);
                        } else {
                            assert(out@[i] == before[i]);
                            assert(out@[k] == before[k]);
                        }
                    }
                }
            }
            j = j + 1;
        }
        out
    }

    /// The server that worker `worker_nr` asks at its attempt `attempt_nr`:
    /// consecutive attempts go round the servers, each worker starting at its own.
    pub fn url(&self, worker_nr: u8, attempt_nr: usize) -> (r: url::Url)
        requires
            self.urls@.len() > 0,
        ensures
            r == self.urls@[url_index(worker_nr, attempt_nr, self.urls@.len())],
            r == self.urls@[((attempt_nr + worker_nr) % (usize::MAX + 1)) % (
            self.urls@.len() as int)],
    {
        let rotated = attempt_nr.wrapping_add(worker_nr as usize);
        let idx = rotated % self.urls.len();
        proof {
            lemma_server_index_wraps_the_sum(worker_nr, attempt_nr, self.urls@.len());
        }
        clone_url(&self.urls[idx])
    }

    /// The set of one server, from the text of its URL.
    pub fn parse(input: &str) -> (r: Result<UrlSet, url::ParseError>)
        ensures
            r is Ok <==> parsed_url_text(input@) is Some,
            r matches Ok(s) ==> s.urls@.len() == 1 && url_text(s.urls@[0])
                == parsed_url_text(input@)->Some_0,
    {
        match parse_url(input) {
            Ok(u) => {
                let mut urls: Vec<url::Url> = Vec::new();
                urls.push(u);
                Ok(UrlSet { urls })
            },
            Err(e) => Err(e),
        }
    }

    /// The set of the servers named by `inputs`, in order; an error when one
    /// of them is not a URL, from the first such input.
    pub fn parse_all(inputs: &[String]) -> (r: Result<UrlSet, url::ParseError>)
        ensures
            r is Ok <==> forall|i: int|
                0 <= i < inputs@.len() ==> (#[trigger] parsed_url_text(inputs@[i]@)) is Some,
            r matches Ok(s) ==> s.urls@.len() == inputs@.len() && forall|i: int|
                0 <= i < inputs@.len() ==> url_text(#[trigger] s.urls@[i]) == parsed_url_text(
                    inputs@[i]@,
                )->Some_0,
    {
        let mut urls: Vec<url::Url> = Vec::new();
        let mut i: usize = 0;
        while i < inputs.len()
            invariant
                i <= inputs@.len(),
                urls@.len() == i,
                forall|j: int|
                    0 <= j < i ==> (#[trigger] parsed_url_text(inputs@[j]@)) is Some,
                forall|j: int|
                    0 <= j < i ==> url_text(#[trigger] urls@[j]) == parsed_url_text(
                        inputs@[j]@,
                    )->Some_0,
            decreases inputs@.len() - i,
        {
            match parse_url(inputs[i].as_str()) {
                Ok(u) => {
                    urls.push(u);
                },
                Err(e) => {
                    return Err(e);
                },
            }
            i = i + 1;
        }
        Ok(UrlSet { urls })
    }

    /// The set of one server.
    pub fn from_url(url: url::Url) -> (r: UrlSet)
        ensures
            r.urls@ == seq![url],
    {
        let mut urls: Vec<url::Url> = Vec::new();
        urls.push(url);
        UrlSet { urls }
    }

    /// The set of the given servers, in order.
    pub fn from_urls(urls: Vec<url::Url>) -> (r: UrlSet)
        ensures
            r.urls@ == urls@,
    {
        UrlSet { urls }
    }
}

impl TryFrom<String> for UrlSet {
    type Error = url::ParseError;

    /// The set of one server, from the text of its URL.
    fn try_from(value: String) -> (r: Result<Self, Self::Error>)
        ensures
            r is Ok <==> parsed_url_text(value@) is Some,
            r matches Ok(s) ==> s.urls@.len() == 1 && url_text(s.urls@[0])
                == parsed_url_text(value@)->Some_0,
    {
        UrlSet::parse(value.as_str())
    }
}

impl vstd::std_specs::convert::TryFromSpecImpl<String> for UrlSet {
    open spec fn obeys_try_from_spec() -> bool {
        false
    }

    open spec fn try_from_spec(v: String) -> Result<UrlSet, url::ParseError> {
        arbitrary()
    }
}

impl From<url::Url> for UrlSet {
    /// The set of one server.
    fn from(url: url::Url) -> (r: Self)
        ensures
            r.urls@ == seq![url],
    {
        UrlSet::from_url(url)
    }
}

impl vstd::std_specs::convert::FromSpecImpl<url::Url> for UrlSet {
    open spec fn obeys_from_spec() -> bool {
        false
    }

    open spec fn from_spec(v: url::Url) -> UrlSet {
        arbitrary()
    }
}

/// Worker `worker_nr` moves on to the next server with each attempt.
pub proof fn lemma_next_attempt_next_server(worker_nr: u8, attempt_nr: usize, n: nat)
    requires
        n > 0,
        attempt_nr + worker_nr + 1 <= usize::MAX,
    ensures
        url_index(worker_nr, (attempt_nr + 1) as usize, n) == (url_index(worker_nr, attempt_nr, n)
            + 1) % (n as int),
{
    let x = attempt_nr + worker_nr;
    assert((x + 1) % (n as int) == ((x % (n as int)) + 1) % (n as int)) by (nonlinear_arith)
        requires
            n > 0,
            x >= 0,
    {
        vstd::arithmetic::div_mod::lemma_add_mod_noop(x, 1, n as int);
        if n > 1 {
            vstd::arithmetic::div_mod::lemma_small_mod(1, n);
        }
    }
}

/// Within any `n` consecutive attempts of one worker that do not wrap, the
/// worker asks `n` different servers: every server once.
pub proof fn lemma_attempts_visit_distinct_servers(
    worker_nr: u8,
    attempt_nr: usize,
    n: nat,
    j: nat,
    k: nat,
)
    requires
        n > 0,
        j < k < n,
        attempt_nr + worker_nr + n - 1 <= usize::MAX,
    ensures
        url_index(worker_nr, (attempt_nr + j) as usize, n) != url_index(
            worker_nr,
            (attempt_nr + k) as usize,
            n,
        ),
{
    let x = attempt_nr + worker_nr;
    assert((x + j) % (n as int) != (x + k) % (n as int)) by (nonlinear_arith)
        requires
            n > 0,
            j < k < n,
            x >= 0,
    {
        vstd::arithmetic::div_mod::lemma_fundamental_div_mod(x + j, n as int);
        vstd::arithmetic::div_mod::lemma_fundamental_div_mod(x + k, n as int);
        if (x + j) % (n as int) == (x + k) % (n as int) {
            let qj = (x + j) / (n as int);
            let qk = (x + k) / (n as int);
            assert(k - j == (qk - qj) * n);
            if qk - qj >= 1 {
                assert((qk - qj) * n >= n);
            } else {
                assert((qk - qj) * n <= 0);
            }
        }
    }
}

/// Within any `n` consecutive attempts of one worker that do not wrap, the
/// worker asks every one of the `n` servers.
pub proof fn lemma_attempts_go_round_the_servers(worker_nr: u8, attempt_nr: usize, n: nat, server: nat)
    requires
        n > 0,
        server < n,
        attempt_nr + worker_nr + n - 1 <= usize::MAX,
    ensures
        exists|j: nat|
            j < n && #[trigger] url_index(worker_nr, (attempt_nr + j) as usize, n) == server,
{
    let x = attempt_nr + worker_nr;
    let m = x % (n as int);
    assert(0 <= m < n) by {
        vstd::arithmetic::div_mod::lemma_mod_bound(x, n as int);
    }
    let j: nat = if server >= m {
        (server - m) as nat
    } else {
        (server + n - m) as nat
    };
    assert(j < n);
    assert((x + j) % (n as int) == server) by {
        vstd::arithmetic::div_mod::lemma_add_mod_noop(x, j as int, n as int);
        vstd::arithmetic::div_mod::lemma_small_mod(j, n);
        if server >= m {
            vstd::arithmetic::div_mod::lemma_small_mod(server, n);
        } else {
            vstd::arithmetic::div_mod::lemma_mod_add_multiples_vanish(server as int, n as int);
            vstd::arithmetic::div_mod::lemma_small_mod(server, n);
        }
    }
    assert(url_index(worker_nr, (attempt_nr + j) as usize, n) == server);
}

/// Worker `worker_nr` at attempt `attempt_nr` asks server number
/// `(attempt_nr + worker_nr) mod 2^w mod n`, where `w` is the width of `usize`.
pub proof fn lemma_server_index_wraps_the_sum(worker_nr: u8, attempt_nr: usize, n: nat)
    requires
        n > 0,
    ensures
        url_index(worker_nr, attempt_nr, n) == ((attempt_nr + worker_nr) % (usize::MAX + 1)) % (
        n as int),
        0 <= url_index(worker_nr, attempt_nr, n) < n,
{
    let x = attempt_nr + worker_nr;
    let m = usize::MAX + 1;
    if x >= m {
        vstd::arithmetic::div_mod::lemma_mod_add_multiples_vanish(x - m, m);
        vstd::arithmetic::div_mod::lemma_small_mod((x - m) as nat, m as nat);
    } else {
        vstd::arithmetic::div_mod::lemma_small_mod(x as nat, m as nat);
    }
    vstd::arithmetic::div_mod::lemma_mod_bound(rotated_attempt(worker_nr, attempt_nr), n as int);
}

/// Each worker's first attempt goes to its own server: worker `w` of fewer
/// than `n` workers starts at server `w`, so workers below `n` start at
/// different servers.
pub proof fn lemma_first_attempts_spread_over_servers(w1: u8, w2: u8, n: nat)
    requires
        w1 < n,
        w2 < n,
    ensures
        url_index(w1, 0, n) == w1,
        w1 != w2 ==> url_index(w1, 0, n) != url_index(w2, 0, n),
{
    vstd::arithmetic::div_mod::lemma_small_mod(w1 as nat, n);
    vstd::arithmetic::div_mod::lemma_small_mod(w2 as nat, n);
}

} // verus!
