//! The forwarding engine: given a decoded message and the interface it
//! arrived on, decide which interfaces must re-emit the original bytes.
use crate::config::Config;
use crate::config::MdnsConfig;
use crate::parser::error::ParserError;
use crate::parser::message::spec_parse_message;
use crate::parser::message::DnsMessage;
use crate::parser::message::MessageView;
use crate::parser::question::QuestionView;
use crate::parser::resource_record::RecordView;
use vstd::prelude::*;

verus! {

/// Whether some entry of `v` reads as the name `name`.
pub open spec fn seq_contains_name(v: Seq<String>, name: Seq<char>) -> bool {
    exists|i: int| 0 <= i < v.len() && v[i]@ == name
}

/// Whether a filter list lets a run of record names through: some name
/// must be there, and an empty filter list passes any of them while a
/// non-empty one passes only names it lists. A message with no names in
/// the section concerned is never forwarded for that section.
pub open spec fn filters_pass(filters: Seq<String>, names: Seq<Seq<char>>) -> bool {
    names.len() > 0 && (filters.len() == 0 || exists|i: int|
        0 <= i < names.len() && seq_contains_name(filters, names[i]))
}

/// The names asked about in the question section.
pub open spec fn question_names(m: MessageView) -> Seq<Seq<char>> {
    m.questions.map_values(|q: QuestionView| q.qname)
}

/// The names answered in the answer section.
pub open spec fn answer_names(m: MessageView) -> Seq<Seq<char>> {
    m.answers.map_values(|r: RecordView| r.name)
}

/// The set of interface names an entry list spells out.
pub open spec fn name_set(v: Seq<String>) -> Set<Seq<char>> {
    Set::new(|n: Seq<char>| seq_contains_name(v, n))
}

/// A rule forwards the queries of a message arriving on `src` when `src`
/// is one of its destinations and a question name passes its filters.
pub open spec fn rule_forwards_queries(rule: MdnsConfig, src: Seq<char>, m: MessageView) -> bool {
    seq_contains_name(rule.destinations@, src) && filters_pass(rule.filters@, question_names(m))
}

/// A rule forwards the answers of a message arriving on `src` when `src`
/// is one of its sources and an answer name passes its filters.
pub open spec fn rule_forwards_answers(rule: MdnsConfig, src: Seq<char>, m: MessageView) -> bool {
    seq_contains_name(rule.sources@, src) && filters_pass(rule.filters@, answer_names(m))
}

/// The interfaces one rule would re-emit on: sources for forwarded
/// queries, destinations for forwarded answers, and never the interface
/// the event arrived on.
pub open spec fn rule_candidates(rule: MdnsConfig, src: Seq<char>, m: MessageView) -> Set<
    Seq<char>,
> {
    (if rule_forwards_queries(rule, src, m) {
        name_set(rule.sources@)
    } else {
        Set::empty()
    }).union(
        if rule_forwards_answers(rule, src, m) {
            name_set(rule.destinations@)
        } else {
            Set::empty()
        },
    ).remove(src)
}

/// Every interface some rule re-emits on: the union of the candidates of
/// all rules. Each destination is listed once, however many rules name it.
pub open spec fn spec_plan(rules: Seq<MdnsConfig>, src: Seq<char>, m: MessageView) -> Set<
    Seq<char>,
> {
    Set::new(
        |n: Seq<char>|
            exists|i: int| 0 <= i < rules.len() && rule_candidates(rules[i], src, m).contains(n),
    )
}

/// What it means for an output list to render the plan: every entry is a
/// planned destination, every planned destination appears, and no name
/// appears twice.
pub open spec fn plan_matches(
    out: Seq<String>,
    rules: Seq<MdnsConfig>,
    src: Seq<char>,
    m: MessageView,
) -> bool {
    &&& forall|i: int|
        0 <= i < out.len() ==> spec_plan(rules, src, m).contains(#[trigger] out[i]@)
    &&& forall|n: Seq<char>|
        #[trigger] spec_plan(rules, src, m).contains(n) ==> seq_contains_name(out, n)
    &&& forall|i: int, j: int| 0 <= i < j < out.len() ==> out[i]@ != out[j]@
}

/// An event never forwards back to the interface it arrived on: the plan
/// cannot contain `src`, whatever the rules and the message say.
pub proof fn lemma_no_self_forward(rules: Seq<MdnsConfig>, src: Seq<char>, m: MessageView)
    ensures
        !spec_plan(rules, src, m).contains(src),
{
}

/// The plan only names interfaces the rules spell out: a planned
/// destination stands in the sources or destinations of some rule.
pub proof fn lemma_plan_names_configured(
    rules: Seq<MdnsConfig>,
    src: Seq<char>,
    m: MessageView,
    n: Seq<char>,
)
    requires
        spec_plan(rules, src, m).contains(n),
    ensures
        exists|i: int|
            0 <= i < rules.len() && (seq_contains_name(#[trigger] rules[i].sources@, n)
                || seq_contains_name(rules[i].destinations@, n)),
{
    let i = choose|i: int| 0 <= i < rules.len() && rule_candidates(rules[i], src, m).contains(n);
    assert(seq_contains_name(rules[i].sources@, n) || seq_contains_name(
        rules[i].destinations@,
        n,
    ));
}

/// A rule whose filters pass neither the question names nor the answer
/// names of a message forwards it nowhere.
pub proof fn lemma_filters_gate(rule: MdnsConfig, src: Seq<char>, m: MessageView)
    requires
        !filters_pass(rule.filters@, question_names(m)),
        !filters_pass(rule.filters@, answer_names(m)),
    ensures
        rule_candidates(rule, src, m) =~= Set::<Seq<char>>::empty(),
{
}

/// Whether `s` appears in `v`, read as text.
pub fn vec_contains_string(v: &Vec<String>, s: &String) -> (b: bool)
    ensures
        b == seq_contains_name(v@, s@),
{
    let mut i: usize = 0;
    while i < v.len()
        invariant
            i <= v@.len(),
            forall|j: int| 0 <= j < i ==> v@[j]@ != s@,
        decreases v@.len() - i,
    {
        if v[i] == *s {
            return true;
        }
        i = i + 1;
    }
    false
}

/// Whether a question name of the message passes the filters.
fn questions_pass(filters: &Vec<String>, msg: &DnsMessage) -> (b: bool)
    ensures
        b == filters_pass(filters@, question_names(msg@)),
{
    proof {
        assert(question_names(msg@).len() == msg.questions@.len());
    }
    if msg.questions.len() == 0 {
        return false;
    }
    if filters.len() == 0 {
        return true;
    }
    let mut i: usize = 0;
    while i < msg.questions.len()
        invariant
            i <= msg.questions@.len(),
            forall|j: int|
                0 <= j < i ==> !seq_contains_name(filters@, question_names(msg@)[j]),
        decreases msg.questions@.len() - i,
    {
        if vec_contains_string(filters, &msg.questions[i].qname) {
            proof {
                assert(question_names(msg@)[i as int] == msg.questions@[i as int]@.qname);
            }
            return true;
        }
        i = i + 1;
    }
    false
}

/// Whether an answer name of the message passes the filters.
fn answers_pass(filters: &Vec<String>, msg: &DnsMessage) -> (b: bool)
    ensures
        b == filters_pass(filters@, answer_names(msg@)),
{
    proof {
        assert(answer_names(msg@).len() == msg.answers@.len());
    }
    if msg.answers.len() == 0 {
        return false;
    }
    if filters.len() == 0 {
        return true;
    }
    let mut i: usize = 0;
    while i < msg.answers.len()
        invariant
            i <= msg.answers@.len(),
            forall|j: int| 0 <= j < i ==> !seq_contains_name(filters@, answer_names(msg@)[j]),
        decreases msg.answers@.len() - i,
    {
        if vec_contains_string(filters, &msg.answers[i].name) {
            proof {
                assert(answer_names(msg@)[i as int] == msg.answers@[i as int]@.name);
            }
            return true;
        }
        i = i + 1;
    }
    false
}

/// Appends to `out` every name of `names` that is neither `src` nor
/// already listed.
fn add_candidates(out: &mut Vec<String>, names: &Vec<String>, src: &String)
    requires
        forall|k: int, l: int| 0 <= k < l < old(out)@.len() ==> old(out)@[k]@ != old(out)@[l]@,
    ensures
        old(out)@.len() <= final (out)@.len(),
        forall|k: int| 0 <= k < old(out)@.len() ==> final (out)@[k] == old(out)@[k],
        forall|k: int|
            old(out)@.len() <= k < final (out)@.len() ==> seq_contains_name(
                names@,
                #[trigger] final (out)@[k]@,
            ) && final (out)@[k]@ != src@,
        forall|k: int, l: int|
            0 <= k < l < final (out)@.len() ==> final (out)@[k]@ != final (out)@[l]@,
        forall|k: int|
            0 <= k < names@.len() ==> (names@[k]@ == src@ || seq_contains_name(
                final (out)@,
                #[trigger] names@[k]@,
            )),
{
    let mut i: usize = 0;
    while i < names.len()
        invariant
            i <= names@.len(),
            old(out)@.len() <= out@.len(),
            forall|k: int| 0 <= k < old(out)@.len() ==> out@[k] == old(out)@[k],
            forall|k: int|
                old(out)@.len() <= k < out@.len() ==> seq_contains_name(
                    names@,
                    #[trigger] out@[k]@,
                ) && out@[k]@ != src@,
            forall|k: int, l: int| 0 <= k < l < out@.len() ==> out@[k]@ != out@[l]@,
            forall|k: int|
                0 <= k < i ==> (names@[k]@ == src@ || seq_contains_name(
                    out@,
                    #[trigger] names@[k]@,
                )),
        decreases names@.len() - i,
    {
        let s = &names[i];
        if !(*s == *src) {
            if !vec_contains_string(out, s) {
                let ghost before = out@;
                out.push(s.clone());
                proof {
                    assert forall|n: Seq<char>| seq_contains_name(before, n) implies
                        seq_contains_name(out@, n) by {
                        let w = choose|w: int| 0 <= w < before.len() && before[w]@ == n;
                        assert(out@[w]@ == n);
                    }
                    assert(seq_contains_name(names@, out@[out@.len() - 1]@));
                }
            }
        }
        i = i + 1;
    }
}

/// The interfaces the whole rule set re-emits on for one event: the union
/// of every rule's candidates, each name once, and never the arrival
/// interface itself.
#[verifier::loop_isolation(false)]
pub fn plan_destinations(config: &Config, src_ifname: &String, msg: &DnsMessage) -> (out: Vec<
    String,
>)
    ensures
        plan_matches(out@, config.mdns@, src_ifname@, msg@),
{
    let mut out: Vec<String> = Vec::new();
    let mut r: usize = 0;
    while r < config.mdns.len()
        invariant
            r <= config.mdns@.len(),
            forall|i: int|
                0 <= i < out@.len() ==> spec_plan(config.mdns@, src_ifname@, msg@).contains(
                    #[trigger] out@[i]@,
                ),
            forall|n: Seq<char>, ri: int|
                0 <= ri < r && #[trigger] rule_candidates(config.mdns@[ri], src_ifname@, msg@)
                    .contains(n) ==> seq_contains_name(out@, n),
            forall|i: int, j: int| 0 <= i < j < out@.len() ==> out@[i]@ != out@[j]@,
        decreases config.mdns@.len() - r,
    {
        let ghost out_begin = out@;
        let rule = &config.mdns[r];
        let q_active = vec_contains_string(&rule.destinations, src_ifname) && questions_pass(
            &rule.filters,
            msg,
        );
        let a_active = vec_contains_string(&rule.sources, src_ifname) && answers_pass(
            &rule.filters,
            msg,
        );
        if q_active {
            add_candidates(&mut out, &rule.sources, src_ifname);
        }
        let ghost out_mid = out@;
        if a_active {
            add_candidates(&mut out, &rule.destinations, src_ifname);
        }
        proof {
            let ruleg = config.mdns@[r as int];
            let src = src_ifname@;
            let m = msg@;
            assert forall|n: Seq<char>| seq_contains_name(out_begin, n) implies seq_contains_name(
                out@,
                n,
            ) by {
                let w = choose|w: int| 0 <= w < out_begin.len() && out_begin[w]@ == n;
                assert(out@[w]@ == n);
            }
            assert forall|n: Seq<char>| seq_contains_name(out_mid, n) implies seq_contains_name(
                out@,
                n,
            ) by {
                let w = choose|w: int| 0 <= w < out_mid.len() && out_mid[w]@ == n;
                assert(out@[w]@ == n);
            }
            assert forall|i: int| 0 <= i < out@.len() implies spec_plan(
                config.mdns@,
                src,
                m,
            ).contains(#[trigger] out@[i]@) by {
                if i < out_begin.len() {
                    assert(out@[i] == out_begin[i]);
                } else if i < out_mid.len() {
                    assert(seq_contains_name(ruleg.sources@, out_mid[i]@) && out_mid[i]@ != src);
                    assert(rule_candidates(ruleg, src, m).contains(out@[i]@));
                } else {
                    assert(seq_contains_name(ruleg.destinations@, out@[i]@) && out@[i]@ != src);
                    assert(rule_candidates(ruleg, src, m).contains(out@[i]@));
                }
            }
            assert forall|n: Seq<char>| rule_candidates(ruleg, src, m).contains(
                n,
            ) implies seq_contains_name(out@, n) by {
                if rule_forwards_queries(ruleg, src, m) && name_set(ruleg.sources@).contains(n) {
                    let k = choose|k: int|
                        0 <= k < ruleg.sources@.len() && ruleg.sources@[k]@ == n;
                    assert(seq_contains_name(out_mid, n));
                } else {
                    let k = choose|k: int|
                        0 <= k < ruleg.destinations@.len() && ruleg.destinations@[k]@ == n;
                    assert(seq_contains_name(out@, n));
                }
            }
        }
        r = r + 1;
    }
    out
}

/// Parses a packet's payload and plans its forwarding in one step: the
/// decode error of a bad payload, or the planned destination interfaces.
pub fn plan_packet(config: &Config, src_ifname: &String, payload: &[u8]) -> (r: Result<
    Vec<String>,
    ParserError,
>)
    ensures
        match spec_parse_message(payload@) {
            Ok(m) => r matches Ok(out) && plan_matches(out@, config.mdns@, src_ifname@, m),
            Err(e) => r == Err::<Vec<String>, ParserError>(e),
        },
{
    let msg = match DnsMessage::parse(payload) {
        Ok(m) => m,
        Err(e) => {
            return Err(e);
        },
    };
    Ok(plan_destinations(config, src_ifname, &msg))
}

} // verus!
