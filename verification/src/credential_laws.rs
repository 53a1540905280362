//! What holds of every helper and of what is made of its answers.

use vstd::prelude::*;

use crate::credential_helper;
use crate::credential_helper::CommandError;
use crate::credential_helper::CredentialHelper;
use crate::credential_helper::GetCredentialsResponse;
use crate::credential_helper::Outcome;
use crate::fmt_duration;
use crate::time::Duration;

verus! {

/// A helper keeps the times that it is made with, however long or short, and has the
/// usual ones only where none is given. It runs exactly the words that it is made of and
/// has no answers yet. There is none if the words name no program.
pub proof fn law_configured_times_are_kept(
    r: Result<CredentialHelper, CommandError>,
    words: Seq<Seq<char>>,
    timeout: Option<Duration>,
    cache_duration: Option<Duration>,
)
    requires
        credential_helper::is_helper(r, words, timeout, cache_duration),
    ensures
        r is Ok <==> words.len() > 0 && words[0].len() > 0,
        r matches Err(e) ==> e@ is Empty,
        r matches Ok(helper) ==> {
            &&& helper@.command == words
            &&& forall|uri: Seq<char>| !#[trigger] helper@.cache.contains_key(uri)
            &&& timeout is Some ==> helper@.timeout == timeout->0@
            &&& timeout is None ==> helper@.timeout == 10_000_000_000
            &&& cache_duration is Some ==> helper@.default_cache_duration
                == cache_duration->0@
            &&& cache_duration is None ==> helper@.default_cache_duration
                == 1_800_000_000_000
        },
{
}

/// An answer whose headers are usable is kept until it expires, or for the given time
/// where it does not say when it does. An answer that expired before the epoch is kept
/// until the epoch.
pub proof fn law_answers_are_kept_until_they_expire(
    response: GetCredentialsResponse,
    now: int,
    keep: nat,
    headers: Seq<(Seq<char>, Seq<u8>)>,
)
    requires
        credential_helper::parsed_headers(response.headers@) == Ok::<
            Seq<(Seq<char>, Seq<u8>)>,
            credential_helper::ResponseErrorModel,
        >(headers),
    ensures
        ({
            let kept = credential_helper::kept(response, now, keep);
            &&& kept matches Ok(model) ==> model.headers == headers
            &&& response.expires is None ==> kept is Ok && kept->Ok_0.refresh_at == now + keep
            &&& response.expires matches Some(t) ==> match credential_helper::rfc3339_seconds(t@) {
                Ok(secs) => {
                    &&& kept is Ok
                    &&& secs >= 0 ==> kept->Ok_0.refresh_at == secs * 1_000_000_000
                    &&& secs < 0 ==> kept->Ok_0.refresh_at == 0
                },
                Err(source) => {
                    &&& kept is Err
                    &&& kept->Err_0 == (credential_helper::ResponseErrorModel::Expires {
                        text: t@,
                        source,
                    })
                },
            }
        }),
{
}

/// Nothing is kept of an answer with an unusable header, and an unusable expiry is
/// reported before it.
pub proof fn law_unusable_answers_are_not_kept(
    response: GetCredentialsResponse,
    now: int,
    keep: nat,
)
    requires
        credential_helper::parsed_headers(response.headers@) is Err,
    ensures
        credential_helper::kept(response, now, keep) is Err,
        response.expires is None || credential_helper::rfc3339_seconds(response.expires->0@) is Ok
            ==> credential_helper::kept(response, now, keep)->Err_0
            == credential_helper::parsed_headers(response.headers@)->Err_0,
        response.expires is Some && credential_helper::rfc3339_seconds(response.expires->0@) is Err
            ==> credential_helper::kept(response, now, keep)->Err_0 is Expires,
{
}

/// How many values the entries have together.
pub open spec fn value_count(entries: Seq<(Seq<char>, Seq<Seq<char>>)>) -> nat
    decreases entries.len(),
{
    if entries.len() == 0 {
        0
    } else {
        value_count(entries.drop_last()) + entries.last().1.len()
    }
}

/// Whether the entry is usable: its name is that of a header and so are its values.
pub open spec fn usable(entry: (Seq<char>, Seq<Seq<char>>)) -> bool {
    &&& credential_helper::valid_header_name(entry.0)
    &&& forall|j: int|
        0 <= j < entry.1.len() ==> credential_helper::valid_header_value(#[trigger] entry.1[j])
}

proof fn lemma_named_headers(name: Seq<char>, values: Seq<Seq<char>>)
    ensures
        credential_helper::named_headers(name, values).1 <==> forall|j: int|
            0 <= j < values.len() ==> credential_helper::valid_header_value(#[trigger] values[j]),
        credential_helper::named_headers(name, values).1 ==> {
            let headers = credential_helper::named_headers(name, values).0;
            &&& headers.len() == values.len()
            &&& forall|j: int|
                0 <= j < values.len() ==> #[trigger] headers[j] == (
                    credential_helper::lower_text(name),
                    vstd::utf8::encode_utf8(values[j]),
                )
        },
    decreases values.len(),
{
    if values.len() > 0 {
        let init = values.drop_last();
        lemma_named_headers(name, init);
        if credential_helper::named_headers(name, init).1 {
            assert forall|j: int| 0 <= j < init.len() implies credential_helper::valid_header_value(
                #[trigger] values[j],
            ) by {
                assert(init[j] == values[j]);
            }
        } else {
            let j = choose|j: int|
                0 <= j < init.len() && !credential_helper::valid_header_value(#[trigger] init[j]);
            assert(values[j] == init[j]);
        }
    }
}

/// Where every entry is usable, there is one header for each value, in the order of the
/// entries and of the values in them, under the name of its entry in lower case and with
/// the UTF-8 bytes of the value.
pub proof fn law_every_value_becomes_a_header(
    entries: Seq<(Seq<char>, Seq<Seq<char>>)>,
    i: int,
    j: int,
)
    requires
        forall|k: int| 0 <= k < entries.len() ==> usable(#[trigger] entries[k]),
        0 <= i < entries.len(),
        0 <= j < entries[i].1.len(),
    ensures
        credential_helper::parsed_headers(entries) is Ok,
        ({
            let headers = credential_helper::parsed_headers(entries)->Ok_0;
            let at = value_count(entries.take(i)) + j;
            &&& headers.len() == value_count(entries)
            &&& at < headers.len()
            &&& headers[at].0.len() == entries[i].0.len()
            &&& headers[at].1 == vstd::utf8::encode_utf8(entries[i].1[j])
            &&& forall|c: int|
                0 <= c < entries[i].0.len() ==> #[trigger] headers[at].0[c] == (
                if 'A' <= entries[i].0[c] <= 'Z' {
                    (entries[i].0[c] as u32 + 32) as char
                } else {
                    entries[i].0[c]
                })
        }),
    decreases entries.len(),
{
    let init = entries.drop_last();
    let (name, values) = entries.last();
    assert forall|k: int| 0 <= k < init.len() implies usable(#[trigger] init[k]) by {
        assert(init[k] == entries[k]);
    }
    lemma_usable_entries(entries);
    lemma_usable_entries(init);
    lemma_named_headers(name, values);
    assert(usable(entries[entries.len() - 1]));
    if i < init.len() {
        assert(init[i] == entries[i]);
        assert(init.take(i) =~= entries.take(i));
        law_every_value_becomes_a_header(init, i, j);
    } else {
        assert(entries.take(i) =~= init);
    }
}

proof fn lemma_usable_entries(entries: Seq<(Seq<char>, Seq<Seq<char>>)>)
    requires
        forall|k: int| 0 <= k < entries.len() ==> usable(#[trigger] entries[k]),
    ensures
        credential_helper::parsed_headers(entries) is Ok,
        credential_helper::parsed_headers(entries)->Ok_0.len() == value_count(entries),
    decreases entries.len(),
{
    if entries.len() > 0 {
        let init = entries.drop_last();
        assert forall|k: int| 0 <= k < init.len() implies usable(#[trigger] init[k]) by {
            assert(init[k] == entries[k]);
        }
        lemma_usable_entries(init);
        assert(usable(entries[entries.len() - 1]));
        lemma_named_headers(entries.last().0, entries.last().1);
    }
}

/// The first entry that is not usable is the one that is reported: its name where that is
/// not the name of a header, and its value otherwise.
pub proof fn law_first_unusable_entry_is_reported(
    entries: Seq<(Seq<char>, Seq<Seq<char>>)>,
    i: int,
)
    requires
        0 <= i < entries.len(),
        !usable(entries[i]),
        forall|k: int| 0 <= k < i ==> usable(#[trigger] entries[k]),
    ensures
        credential_helper::parsed_headers(entries) is Err,
        ({
            let error = credential_helper::parsed_headers(entries)->Err_0;
            &&& credential_helper::valid_header_name(entries[i].0) ==> error == (
            credential_helper::ResponseErrorModel::HeaderValue {
                name: entries[i].0,
                source: "failed to parse metadata value"@,
            })
            &&& !credential_helper::valid_header_name(entries[i].0) ==> error == (
            credential_helper::ResponseErrorModel::HeaderName {
                name: entries[i].0,
                source: "invalid gRPC metadata key name"@,
            })
        }),
    decreases entries.len(),
{
    let init = entries.drop_last();
    if i < init.len() {
        assert(init[i] == entries[i]);
        assert forall|k: int| 0 <= k < i implies usable(#[trigger] init[k]) by {
            assert(init[k] == entries[k]);
        }
        law_first_unusable_entry_is_reported(init, i);
    } else {
        assert forall|k: int| 0 <= k < init.len() implies usable(#[trigger] init[k]) by {
            assert(init[k] == entries[k]);
        }
        lemma_usable_entries(init);
        lemma_named_headers(entries[i].0, entries[i].1);
    }
}

proof fn lemma_trimmed_front(s: Seq<char>) -> (n: int)
    ensures
        0 <= n <= s.len(),
        credential_helper::trimmed_front(s) == s.skip(n),
        forall|i: int| 0 <= i < n ==> credential_helper::whitespace(#[trigger] s[i]),
        n < s.len() ==> !credential_helper::whitespace(s[n]),
    decreases s.len(),
{
    if s.len() > 0 && credential_helper::whitespace(s[0]) {
        let m = lemma_trimmed_front(s.drop_first());
        assert(s.drop_first().skip(m) =~= s.skip(m + 1));
        assert forall|i: int| 0 <= i < m + 1 implies credential_helper::whitespace(
            #[trigger] s[i],
        ) by {
            if i > 0 {
                assert(s.drop_first()[i - 1] == s[i]);
            }
        }
        m + 1
    } else {
        assert(s.skip(0) =~= s);
        0
    }
}

proof fn lemma_trimmed_back(s: Seq<char>) -> (n: int)
    ensures
        0 <= n <= s.len(),
        credential_helper::trimmed_back(s) == s.take(n),
        forall|i: int| n <= i < s.len() ==> credential_helper::whitespace(#[trigger] s[i]),
        n > 0 ==> !credential_helper::whitespace(s[n - 1]),
    decreases s.len(),
{
    if s.len() > 0 && credential_helper::whitespace(s.last()) {
        let m = lemma_trimmed_back(s.drop_last());
        assert(s.drop_last().take(m) =~= s.take(m));
        assert forall|i: int| m <= i < s.len() implies credential_helper::whitespace(
            #[trigger] s[i],
        ) by {
            if i < s.len() - 1 {
                assert(s.drop_last()[i] == s[i]);
            }
        }
        m
    } else {
        assert(s.take(s.len() as int) =~= s);
        s.len() as int
    }
}

/// Trimming cuts the text once in front and once behind: what is cut off is whitespace,
/// and what is left neither starts nor ends with any.
pub proof fn law_trimming_cuts_whitespace_only(s: Seq<char>) -> (cut: (int, int))
    ensures
        0 <= cut.0 <= cut.1 <= s.len(),
        credential_helper::trimmed(s) == s.subrange(cut.0, cut.1),
        forall|i: int|
            0 <= i < cut.0 || cut.1 <= i < s.len() ==> credential_helper::whitespace(
                #[trigger] s[i],
            ),
        cut.0 < cut.1 ==> !credential_helper::whitespace(s[cut.0])
            && !credential_helper::whitespace(s[cut.1 - 1]),
{
    let front = lemma_trimmed_front(s);
    let rest = s.skip(front);
    let back = lemma_trimmed_back(rest);
    assert(rest.take(back) =~= s.subrange(front, front + back));
    assert forall|i: int|
        0 <= i < front || front + back <= i < s.len() implies credential_helper::whitespace(
        #[trigger] s[i],
    ) by {
        if i >= front {
            assert(rest[i - front] == s[i]);
        }
    }
    (front, front + back)
}

/// Each way in which a run can end without an answer has an error of its own, which says
/// what was observed.
pub proof fn law_failures_say_what_happened(
    helper: credential_helper::HelperModel,
    outcome: Outcome,
    error: credential_helper::InvokeErrorModel,
)
    requires
        credential_helper::fails_with(outcome, helper, error),
    ensures
        outcome matches Outcome::NotStarted(e) ==> error.text() == "Error spawning `"@
            + helper.command[0] + "`: "@ + e@,
        outcome is NoInput ==> error.text() == "stdin was not captured"@,
        outcome is TimedOut ==> error.text() == "Credential helper did not respond within "@
            + fmt_duration::exact_text(helper.timeout),
        outcome matches Outcome::NotObserved(e) ==> error.text()
            == "Error waiting for the credential helper: "@ + e@,
        outcome matches Outcome::Failed { status, stderr } ==> error.text()
            == "Credential helper failed with "@ + status@ + ": "@ + credential_helper::trimmed(
            credential_helper::lossy_text(stderr@),
        ),
        outcome matches Outcome::Answered(Err(e)) ==> error.text()
            == "Error parsing the credential helper's output as JSON: "@ + e@,
{
}

/// What the errors about an answer and about a command line say.
pub proof fn law_error_texts(name: Seq<char>, source: Seq<char>)
    ensures
        (credential_helper::ResponseErrorModel::Expires { text: name, source }).text()
            == "Invalid RFC 3339 timestamp in `expires`: `"@ + name + "`: "@ + source,
        (credential_helper::ResponseErrorModel::HeaderName { name, source }).text()
            == "Invalid header name: `"@ + name + "`: "@ + source,
        (credential_helper::ResponseErrorModel::HeaderValue { name, source }).text()
            == "Invalid value for header `"@ + name + "`: "@ + source,
        credential_helper::CommandErrorModel::InvalidCommandLine(name).text()
            == "Invalid credential helper command line: `"@ + name + "`"@,
        credential_helper::CommandErrorModel::Empty.text()
            == "Credential helper command must not be empty"@,
{
}

/// What an error on the way to credentials says: whose credentials, from which program,
/// and why there are none.
pub proof fn law_get_error_texts(error: credential_helper::GetError)
    ensures
        error matches credential_helper::GetError::Invoke { uri, program, error: e }
            ==> error.line() == "Error getting credentials for `"@ + uri@
            + "` from credential helper `"@ + program@ + "`: "@ + e@.text(),
        error matches credential_helper::GetError::Response { uri, program, invalid }
            ==> error.line() == "Invalid response from credential helper `"@ + program@
            + "` for `"@ + uri@ + "`: "@ + invalid@.text(),
{
}

/// What an error on the way to a helper says.
pub proof fn law_build_error_texts(error: credential_helper::BuildError)
    ensures
        error matches credential_helper::BuildError::Substitution(e) ==> error.line()
            == "Invalid `credential_helper`: "@ + e@,
        error matches credential_helper::BuildError::Command(e) ==> error.line()
            == "Invalid `credential_helper`: "@ + e@.text(),
{
}

/// The request is an object with the URI as its one member. A URI without quotes,
/// backslashes and control characters stands in it as it is.
pub proof fn law_plain_uris_are_sent_as_they_are(uri: Seq<char>)
    requires
        forall|i: int|
            0 <= i < uri.len() ==> (#[trigger] uri[i]) >= ' ' && uri[i] != '"' && uri[i] != '\\',
    ensures
        credential_helper::request_text(uri) == "{\"uri\":\""@ + uri + "\"}"@,
{
    lemma_plain_chars(uri);
    reveal_strlit("{\"uri\":");
    reveal_strlit("{\"uri\":\"");
    reveal_strlit("}");
    reveal_strlit("\"}");
    assert(credential_helper::request_text(uri) =~= "{\"uri\":\""@ + uri + "\"}"@);
}

proof fn lemma_plain_chars(s: Seq<char>)
    requires
        forall|i: int|
            0 <= i < s.len() ==> (#[trigger] s[i]) >= ' ' && s[i] != '"' && s[i] != '\\',
    ensures
        credential_helper::json_chars(s) == s,
    decreases s.len(),
{
    if s.len() > 0 {
        let init = s.drop_last();
        assert forall|i: int| 0 <= i < init.len() implies (#[trigger] init[i]) >= ' ' && init[i]
            != '"' && init[i] != '\\' by {
            assert(init[i] == s[i]);
        }
        lemma_plain_chars(init);
        assert(s[s.len() - 1] >= ' ');
        assert(credential_helper::json_chars(s) =~= s);
    } else {
        assert(credential_helper::json_chars(s) =~= s);
    }
}

/// What is shown of credentials holds each name between quotes, in order, with a comma
/// between neighbours.
pub proof fn law_names_are_shown_in_order(names: Seq<Seq<char>>, last: Seq<char>)
    ensures
        credential_helper::shown_names(seq![]) == "Credentials { headers: [] }"@,
        credential_helper::shown_names(seq![last]) == "Credentials { headers: [\""@ + last
            + "\"] }"@,
        names.len() > 0 ==> {
            let n = (credential_helper::shown_names(names).len() - 3) as int;
            &&& n >= 0
            &&& credential_helper::shown_names(names.push(last))
                == credential_helper::shown_names(names).take(n) + ", \""@ + last + "\"] }"@
        },
{
    reveal_strlit("Credentials { headers: [");
    reveal_strlit("Credentials { headers: [] }");
    reveal_strlit("Credentials { headers: [\"");
    reveal_strlit("\"] }");
    reveal_strlit("] }");
    reveal_strlit("\"");
    reveal_strlit(", ");
    reveal_strlit(", \"");
    let quote = |name: Seq<char>| "\""@ + name + "\""@;
    let none: Seq<Seq<char>> = seq![];
    assert(none.map_values(quote) =~= none);
    assert(credential_helper::shown_names(none) =~= "Credentials { headers: [] }"@);
    let one: Seq<Seq<char>> = seq![last];
    assert(one.map_values(quote) =~= seq![quote(last)]);
    assert(credential_helper::shown_names(one) =~= "Credentials { headers: [\""@ + last
        + "\"] }"@);
    let more = names.push(last);
    assert(more.map_values(quote) =~= names.map_values(quote).push(quote(last)));
    if names.len() > 0 {
        let n = (credential_helper::shown_names(names).len() - 3) as int;
        assert(more.map_values(quote).drop_last() =~= names.map_values(quote));
        assert(credential_helper::shown_names(more) =~= credential_helper::shown_names(names).take(
            n,
        ) + ", \""@ + last + "\"] }"@);
    }
}

} // verus!
