//! Rule router: matches a session's destination against ordered rules and
//! yields the tag of the outbound that should carry it.
use crate::addr::{Address, IpAddress, Session};
use crate::config::Rule;
use crate::parse::{find_char, find_char_at, spec_parse_ipv4, parse_ipv4, all_dec_digits,
    dec_seq_val, is_dec_digit};
use vstd::prelude::*;
use vstd::string::StrSliceExecFns;

verus! {

/// A compiled regular expression of the regex crate, held opaquely.
#[verifier::external_type_specification]
#[verifier::external_body]
pub struct ExRegex(regex::Regex);

/// Whether a compiled regular expression matches a text; the answer depends
/// on the regex value and the text alone.
pub uninterp spec fn regex_matches(r: regex::Regex, text: Seq<char>) -> bool;

/// Whether the regex crate accepts a pattern; acceptance depends on the
/// pattern text alone.
pub uninterp spec fn pattern_ok(pattern: Seq<char>) -> bool;

/// Relies on regex::Regex::new: compiles a pattern, refusing exactly the
/// invalid ones.
#[verifier::external_body]
fn compile_regex(pattern: &str) -> (r: Option<regex::Regex>)
    ensures
        r is Some <==> pattern_ok(pattern@),
{
    regex::Regex::new(pattern).ok()
}

/// Relies on regex::Regex::is_match: whether the compiled pattern matches
/// the text.
#[verifier::external_body]
fn regex_is_match(re: &regex::Regex, text: &str) -> (b: bool)
    ensures
        b == regex_matches(*re, text@),
{
    re.is_match(text)
}

/// One IPv4 network in CIDR form: a base address and a prefix length.
#[derive(Clone, Copy, PartialEq, Eq, Structural, Debug)]
pub struct Cidr {
    pub base: u32,
    pub prefix: u8,
}

/// Whether an address lies in the network: the first `prefix` bits agree.
pub open spec fn cidr_contains(c: Cidr, ip: u32) -> bool {
    c.prefix == 0 || (ip ^ c.base) >> ((32 - c.prefix) as u32) == 0
}

/// Tests whether an address lies in the network.
pub fn cidr_check(c: &Cidr, ip: u32) -> (r: bool)
    requires
        c.prefix <= 32,
    ensures
        r == cidr_contains(*c, ip),
{
    if c.prefix == 0 {
        true
    } else {
        let sh: u32 = 32 - (c.prefix as u32);
        (ip ^ c.base) >> sh == 0
    }
}

/// The CIDR a piece of text denotes: an IPv4 literal, a slash, and a prefix
/// length of at most 32 written in at most two digits.
pub open spec fn spec_parse_cidr(s: Seq<char>) -> Option<Cidr> {
    let slash = find_char(s, '/', 0);
    if slash == s.len() {
        None
    } else {
        match spec_parse_ipv4(s.take(slash)) {
            None => None,
            Some(base) => {
                let digits_ok = slash + 1 < s.len() && s.len() <= slash + 3 && all_dec_digits(
                    s,
                    slash + 1,
                    s.len() as int,
                );
                if digits_ok && dec_seq_val(s, slash + 1, s.len() as int) <= 32 {
                    Some(Cidr { base, prefix: dec_seq_val(s, slash + 1, s.len() as int) as u8 })
                } else {
                    None
                }
            },
        }
    }
}

/// Parses CIDR text such as `10.0.0.0/8`.
#[verifier::loop_isolation(false)]
pub fn parse_cidr(s: &str) -> (r: Option<Cidr>)
    ensures
        r == spec_parse_cidr(s@),
        r matches Some(c) ==> c.prefix <= 32,
{
    let len = s.unicode_len();
    let slash = find_char_at(s, '/', 0);
    if slash == len {
        return None;
    }
    let head = s.substring_char(0, slash);
    let base = match parse_ipv4(head) {
        None => {
            return None;
        },
        Some(b) => b,
    };
    proof {
        assert(head@ == s@.take(slash as int));
    }
    if !(len - slash > 1 && len - slash <= 3) {
        return None;
    }
    let mut value: u32 = 0;
    let mut i = slash + 1;
    while i < len
        invariant
            slash + 1 <= i <= len == s@.len(),
            len <= slash + 3,
            all_dec_digits(s@, slash + 1, i as int),
            value as int == dec_seq_val(s@, slash + 1, i as int),
            i - slash <= 1 ==> value == 0,
            i - slash <= 2 ==> value <= 9,
            value <= 99,
        decreases len - i,
    {
        let c = s.get_char(i);
        if !('0' <= c && c <= '9') {
            proof {
                assert(!is_dec_digit(s@[i as int]));
                assert(!all_dec_digits(s@, slash as int + 1, len as int));
            }
            return None;
        }
        value = value * 10 + (c as u32 - '0' as u32);
        i += 1;
    }
    if value > 32 {
        return None;
    }
    Some(Cidr { base, prefix: value as u8 })
}

/// One IPv6 network in CIDR form: a base address and a prefix length.
#[derive(Clone, Copy, PartialEq, Eq, Structural, Debug)]
pub struct Cidr6 {
    pub base: u128,
    pub prefix: u8,
}

/// One network of either family.
#[derive(Clone, Copy, PartialEq, Eq, Structural, Debug)]
pub enum AnyCidr {
    V4(Cidr),
    V6(Cidr6),
}

/// Whether an address lies in a v6 network: the first `prefix` bits agree.
pub open spec fn cidr6_contains(c: Cidr6, ip: u128) -> bool {
    c.prefix == 0 || (ip ^ c.base) >> ((128 - c.prefix) as u32) == 0
}

/// Whether an address lies in a network of either family; the families must
/// agree.
pub open spec fn any_cidr_contains(c: AnyCidr, ip: IpAddress) -> bool {
    match (c, ip) {
        (AnyCidr::V4(c4), IpAddress::V4(v)) => cidr_contains(c4, v),
        (AnyCidr::V6(c6), IpAddress::V6(v)) => cidr6_contains(c6, v),
        _ => false,
    }
}

/// Tests whether an address lies in a v6 network.
pub fn cidr6_check(c: &Cidr6, ip: u128) -> (r: bool)
    requires
        c.prefix <= 128,
    ensures
        r == cidr6_contains(*c, ip),
{
    if c.prefix == 0 {
        true
    } else {
        let sh: u32 = 128 - (c.prefix as u32);
        (ip ^ c.base) >> sh == 0
    }
}

/// The v6 CIDR a piece of text denotes: an IPv6 literal, a slash, and a
/// prefix length of at most 128 written in at most three digits.
pub open spec fn spec_parse_cidr6(s: Seq<char>) -> Option<Cidr6> {
    let slash = find_char(s, '/', 0);
    if slash == s.len() {
        None
    } else {
        match crate::parse::spec_parse_ipv6(s.take(slash)) {
            None => None,
            Some(base) => {
                let digits_ok = slash + 1 < s.len() && s.len() <= slash + 4 && all_dec_digits(
                    s,
                    slash + 1,
                    s.len() as int,
                );
                if digits_ok && dec_seq_val(s, slash + 1, s.len() as int) <= 128 {
                    Some(Cidr6 { base, prefix: dec_seq_val(s, slash + 1, s.len() as int) as u8 })
                } else {
                    None
                }
            },
        }
    }
}

/// The network a piece of CIDR text denotes, of either family: the v4 form
/// first, the v6 form otherwise.
pub open spec fn spec_parse_any_cidr(s: Seq<char>) -> Option<AnyCidr> {
    match spec_parse_cidr(s) {
        Some(c) => Some(AnyCidr::V4(c)),
        None => match spec_parse_cidr6(s) {
            Some(c) => Some(AnyCidr::V6(c)),
            None => None,
        },
    }
}

/// Parses v6 CIDR text such as `2001:db8::/32`.
#[verifier::loop_isolation(false)]
pub fn parse_cidr6(s: &str) -> (r: Option<Cidr6>)
    ensures
        r == spec_parse_cidr6(s@),
        r matches Some(c) ==> c.prefix <= 128,
{
    let len = s.unicode_len();
    let slash = find_char_at(s, '/', 0);
    if slash == len {
        return None;
    }
    let head = s.substring_char(0, slash);
    let base = match crate::parse::parse_ipv6(head) {
        None => {
            return None;
        },
        Some(b) => b,
    };
    proof {
        assert(head@ == s@.take(slash as int));
    }
    if !(len - slash > 1 && len - slash <= 4) {
        return None;
    }
    let mut value: u32 = 0;
    let mut i = slash + 1;
    while i < len
        invariant
            slash + 1 <= i <= len == s@.len(),
            len <= slash + 4,
            all_dec_digits(s@, slash + 1, i as int),
            value as int == dec_seq_val(s@, slash + 1, i as int),
            i - slash <= 1 ==> value == 0,
            i - slash <= 2 ==> value <= 9,
            i - slash <= 3 ==> value <= 99,
            value <= 999,
        decreases len - i,
    {
        let c = s.get_char(i);
        if !('0' <= c && c <= '9') {
            proof {
                assert(!is_dec_digit(s@[i as int]));
                assert(!all_dec_digits(s@, slash as int + 1, len as int));
            }
            return None;
        }
        value = value * 10 + (c as u32 - '0' as u32);
        i += 1;
    }
    if value > 128 {
        return None;
    }
    Some(Cidr6 { base, prefix: value as u8 })
}

/// Parses CIDR text of either family.
pub fn parse_any_cidr(s: &str) -> (r: Option<AnyCidr>)
    ensures
        r == spec_parse_any_cidr(s@),
        r matches Some(c) ==> any_cidr_wf(c),
{
    match parse_cidr(s) {
        Some(c) => Some(AnyCidr::V4(c)),
        None => match parse_cidr6(s) {
            Some(c) => Some(AnyCidr::V6(c)),
            None => None,
        },
    }
}

/// A network whose prefix length fits its family.
pub open spec fn any_cidr_wf(c: AnyCidr) -> bool {
    match c {
        AnyCidr::V4(c4) => c4.prefix <= 32,
        AnyCidr::V6(c6) => c6.prefix <= 128,
    }
}

/// Tests whether an address lies in a network of either family.
pub fn any_cidr_check(c: &AnyCidr, ip: &IpAddress) -> (r: bool)
    requires
        any_cidr_wf(*c),
    ensures
        r == any_cidr_contains(*c, *ip),
{
    match (c, ip) {
        (AnyCidr::V4(c4), IpAddress::V4(v)) => cidr_check(c4, *v),
        (AnyCidr::V6(c6), IpAddress::V6(v)) => cidr6_check(c6, *v),
        _ => false,
    }
}

/// Matches destinations whose domain name stands in a list, exactly.
pub struct DomainMatcher {
    pub value: Vec<String>,
}

impl DomainMatcher {
    /// A matcher over the given exact names.
    pub fn new(value: Vec<String>) -> (r: DomainMatcher)
        ensures
            r.value == value,
    {
        DomainMatcher { value }
    }

    /// Whether the session's destination is a domain on the list.
    pub open spec fn spec_apply(&self, sess: Session) -> bool {
        match sess.destination {
            Address::Domain(name, _) => exists|i: int|
                0 <= i < self.value@.len() && self.value@[i]@ == name@,
            _ => false,
        }
    }

    /// Applies the matcher to a session.
#[verifier::loop_isolation(false)]
    pub fn apply(&self, sess: &Session) -> (r: bool)
        ensures
            r == self.spec_apply(*sess),
    {
        match &sess.destination {
            Address::Domain(name, _) => {
                let mut i: usize = 0;
                while i < self.value.len()
                    invariant
                        i <= self.value@.len(),
                        forall|j: int| 0 <= j < i ==> self.value@[j]@ != name@,
                    decreases self.value@.len() - i,
                {
                    if self.value[i].eq(name) {
                        return true;
                    }
                    i += 1;
                }
                false
            },
            _ => false,
        }
    }
}

/// Matches destinations already resolved to an IP address in one of a list
/// of networks.
pub struct IpCidrMatcher {
    pub value: Vec<AnyCidr>,
}

/// Every element of a compiled CIDR list keeps its prefix within its
/// family.
pub open spec fn cidrs_wf(cs: Seq<AnyCidr>) -> bool {
    forall|i: int| 0 <= i < cs.len() ==> any_cidr_wf(#[trigger] cs[i])
}

impl IpCidrMatcher {
    /// Compiles CIDR text into a matcher; a single invalid entry refuses the
    /// whole list, and the rule it came from is dropped.
#[verifier::loop_isolation(false)]
    pub fn new(value: Vec<String>) -> (r: Option<IpCidrMatcher>)
        ensures
            r is Some <==> (forall|i: int|
                0 <= i < value@.len() ==> spec_parse_any_cidr((#[trigger] value@[i])@) is Some),
            r matches Some(m) ==> {
                &&& m.value@.len() == value@.len()
                &&& cidrs_wf(m.value@)
                &&& forall|i: int|
                    0 <= i < value@.len() ==> Some(#[trigger] m.value@[i]) == spec_parse_any_cidr(
                        value@[i]@,
                    )
            },
    {
        let mut ips: Vec<AnyCidr> = Vec::new();
        let mut i: usize = 0;
        while i < value.len()
            invariant
                i <= value@.len(),
                ips@.len() == i,
                forall|j: int|
                    0 <= j < i ==> Some(#[trigger] ips@[j]) == spec_parse_any_cidr(value@[j]@),
                forall|j: int| 0 <= j < i ==> any_cidr_wf(#[trigger] ips@[j]),
            decreases value@.len() - i,
        {
            match parse_any_cidr(value[i].as_str()) {
                Some(c) => {
                    ips.push(c);
                },
                None => {
                    proof {
                        assert(spec_parse_any_cidr(value@[i as int]@) is None);
                    }
                    return None;
                },
            }
            i += 1;
        }
        proof {
            assert forall|k: int|
                0 <= k < value@.len() implies spec_parse_any_cidr(
                (#[trigger] value@[k])@,
            ) is Some by {
                assert(Some(ips@[k]) == spec_parse_any_cidr(value@[k]@));
            }
        }
        Some(IpCidrMatcher { value: ips })
    }

    /// Whether the session's destination is a resolved address in one of
    /// the networks.
    pub open spec fn spec_apply(&self, sess: Session) -> bool {
        match sess.destination {
            Address::Ip(sa) => exists|i: int|
                0 <= i < self.value@.len() && any_cidr_contains(#[trigger] self.value@[i], sa.ip),
            _ => false,
        }
    }

    /// Applies the matcher to a session.
#[verifier::loop_isolation(false)]
    pub fn apply(&self, sess: &Session) -> (r: bool)
        requires
            cidrs_wf(self.value@),
        ensures
            r == self.spec_apply(*sess),
    {
        match &sess.destination {
            Address::Ip(sa) => {
                let mut i: usize = 0;
                while i < self.value.len()
                    invariant
                        i <= self.value@.len(),
                        cidrs_wf(self.value@),
                        forall|j: int|
                            0 <= j < i ==> !any_cidr_contains(#[trigger] self.value@[j], sa.ip),
                    decreases self.value@.len() - i,
                {
                    if any_cidr_check(&self.value[i], &sa.ip) {
                        return true;
                    }
                    i += 1;
                }
                false
            },
            _ => false,
        }
    }
}

/// Matches destinations whose `host:port` text matches one of a list of
/// regular expressions.
pub struct RegexpMatcher {
    pub values: Vec<regex::Regex>,
}

/// How many of the patterns at or after `i` the regex crate accepts.
pub open spec fn valid_pattern_count(ps: Seq<String>, i: int) -> int
    decreases ps.len() - i,
{
    if i < 0 || i >= ps.len() {
        0
    } else {
        (if pattern_ok(ps[i]@) {
            1int
        } else {
            0int
        }) + valid_pattern_count(ps, i + 1)
    }
}

impl RegexpMatcher {
    /// Compiles the patterns in order; an invalid pattern is skipped with no
    /// effect on the others, so the matcher holds one compiled expression
    /// for each accepted pattern.
    pub fn new(values: &Vec<String>) -> (r: RegexpMatcher)
        ensures
            r.values@.len() == valid_pattern_count(values@, 0),
    {
        let mut regexps: Vec<regex::Regex> = Vec::new();
        let mut i: usize = 0;
        while i < values.len()
            invariant
                i <= values@.len(),
                regexps@.len() + valid_pattern_count(values@, i as int) == valid_pattern_count(
                    values@,
                    0,
                ),
            decreases values@.len() - i,
        {
            match compile_regex(values[i].as_str()) {
                Some(re) => {
                    regexps.push(re);
                },
                None => {},
            }
            i += 1;
        }
        RegexpMatcher { values: regexps }
    }

    /// Whether any compiled pattern matches the destination's `host:port`
    /// text.
    pub open spec fn spec_apply(&self, sess: Session) -> bool {
        exists|i: int|
            0 <= i < self.values@.len() && regex_matches(
                #[trigger] self.values@[i],
                sess.destination.spec_display(),
            )
    }

    /// Applies the matcher to a session.
#[verifier::loop_isolation(false)]
    pub fn apply(&self, sess: &Session) -> (r: bool)
        ensures
            r == self.spec_apply(*sess),
    {
        let text = sess.destination.to_display_string();
        let mut i: usize = 0;
        while i < self.values.len()
            invariant
                i <= self.values@.len(),
                text@ == sess.destination.spec_display(),
                forall|j: int|
                    0 <= j < i ==> !regex_matches(
                        #[trigger] self.values@[j],
                        sess.destination.spec_display(),
                    ),
            decreases self.values@.len() - i,
        {
            if regex_is_match(&self.values[i], text.as_str()) {
                proof {
                    assert(regex_matches(self.values@[i as int], sess.destination.spec_display()));
                }
                return true;
            }
            i += 1;
        }
        false
    }
}

/// One compiled matcher of any kind.
pub enum Matcher {
    Domain(DomainMatcher),
    Cidr(IpCidrMatcher),
    Regexp(RegexpMatcher),
}

/// Every matcher keeps its own well-formedness.
pub open spec fn matcher_wf(m: Matcher) -> bool {
    match m {
        Matcher::Cidr(c) => cidrs_wf(c.value@),
        _ => true,
    }
}

/// Whether a matcher accepts a session.
pub open spec fn matcher_applies(m: Matcher, sess: Session) -> bool {
    match m {
        Matcher::Domain(d) => d.spec_apply(sess),
        Matcher::Cidr(c) => c.spec_apply(sess),
        Matcher::Regexp(r) => r.spec_apply(sess),
    }
}

/// One compiled rule: a target tag and the matcher that selects it.
pub struct MatcherRule {
    pub target: String,
    pub matcher: Matcher,
}

impl MatcherRule {
    /// A rule sending matched sessions to `target`.
    pub fn new(target: String, matcher: Matcher) -> (r: MatcherRule)
        ensures
            r.target == target,
            r.matcher == matcher,
    {
        MatcherRule { target, matcher }
    }
}

/// The index of the first rule at or after `i` that accepts the session, or
/// the number of rules.
pub open spec fn first_match(rules: Seq<MatcherRule>, sess: Session, i: int) -> int
    decreases rules.len() - i,
{
    if i < 0 || i >= rules.len() {
        rules.len() as int
    } else if matcher_applies(rules[i].matcher, sess) {
        i
    } else {
        first_match(rules, sess, i + 1)
    }
}

/// Whether every entry of a configured CIDR list parses.
pub open spec fn cidr_list_valid(strs: Seq<String>) -> bool {
    forall|i: int| 0 <= i < strs.len() ==> spec_parse_any_cidr((#[trigger] strs[i])@) is Some
}

/// Whether a compiled CIDR list stands for the configured strings, entry for
/// entry.
pub open spec fn cidrs_compiled(strs: Seq<String>, cs: Seq<AnyCidr>) -> bool {
    cs.len() == strs.len() && forall|i: int|
        0 <= i < strs.len() ==> Some(#[trigger] cs[i]) == spec_parse_any_cidr(strs[i]@)
}

/// The matchers one configured rule compiles to: its domain list, its CIDR
/// list and its regexp list, in that order, each aimed at the rule's target.
/// A CIDR list with an entry that does not parse is dropped whole; a regexp
/// list keeps one compiled expression per accepted pattern.
pub open spec fn rule_compiled(rule: Rule, out: Seq<MatcherRule>) -> bool {
    let nd: int = if rule.domain is Some {
        1
    } else {
        0
    };
    let nc: int = if rule.ip is Some && cidr_list_valid(rule.ip->0@) {
        1
    } else {
        0
    };
    let nr: int = if rule.regexp is Some {
        1
    } else {
        0
    };
    &&& out.len() == nd + nc + nr
    &&& (forall|j: int| 0 <= j < out.len() ==> (#[trigger] out[j]).target@ == rule.target@)
    &&& (rule.domain matches Some(names) ==> (out[0].matcher matches Matcher::Domain(d)
        && d.value@ == names@))
    &&& (rule.ip matches Some(strs) ==> (cidr_list_valid(strs@) ==> (out[nd].matcher
        matches Matcher::Cidr(c) && cidrs_compiled(strs@, c.value@))))
    &&& (rule.regexp matches Some(pats) ==> (out[nd + nc].matcher matches Matcher::Regexp(rm)
        && rm.values@.len() == valid_pattern_count(pats@, 0)))
}

/// Whether `out` is the compilation of the first `hi` configured rules, in
/// declaration order, each rule contributing its own block of matchers at
/// the tail of the ones before it.
pub open spec fn rules_compiled(rules: Seq<Rule>, hi: int, out: Seq<MatcherRule>) -> bool
    decreases hi,
{
    if hi <= 0 {
        out.len() == 0
    } else {
        exists|k: int|
            {
                &&& 0 <= k <= out.len()
                &&& rules_compiled(rules, hi - 1, #[trigger] out.take(out.len() - k))
                &&& rule_compiled(rules[hi - 1], out.skip(out.len() - k))
            }
    }
}

/// A value-equal copy of a list of names.
fn clone_strings(v: &Vec<String>) -> (r: Vec<String>)
    ensures
        r@ == v@,
{
    let r = v.clone();
    proof {
        assert forall|i: int| 0 <= i < v@.len() implies r@[i] == v@[i] by {
            assert(cloned::<String>(v@[i], r@[i]));
        }
        assert(r@ =~= v@);
    }
    r
}

/// The ordered router.
pub struct Router {
    pub rules: Vec<MatcherRule>,
}

impl Router {
    /// Every compiled rule is well-formed.
    pub open spec fn wf(&self) -> bool {
        forall|i: int| 0 <= i < self.rules@.len() ==> matcher_wf(#[trigger] self.rules@[i].matcher)
    }

    /// Compiles the configured rules in declaration order. Each rule
    /// contributes its domain list, its CIDR list and its regexp list as
    /// separate matchers toward the same target, in that order; a CIDR list
    /// with an invalid entry is dropped with a warning and never matches,
    /// and an invalid regexp pattern is skipped.
    pub fn new(rules: Vec<Rule>) -> (r: Router)
        ensures
            r.wf(),
            rules_compiled(rules@, rules@.len() as int, r.rules@),
    {
        let mut compiled: Vec<MatcherRule> = Vec::new();
        let mut i: usize = 0;
        while i < rules.len()
            invariant
                i <= rules@.len(),
                forall|k: int|
                    0 <= k < compiled@.len() ==> matcher_wf(#[trigger] compiled@[k].matcher),
                rules_compiled(rules@, i as int, compiled@),
            decreases rules@.len() - i,
        {
            let rule = &rules[i];
            let mut fresh: Vec<MatcherRule> = Vec::new();
            match &rule.domain {
                Some(names) => {
                    let m = DomainMatcher::new(clone_strings(names));
                    fresh.push(MatcherRule::new(rule.target.clone(), Matcher::Domain(m)));
                },
                None => {},
            }
            match &rule.ip {
                Some(cidrs) => {
                    match IpCidrMatcher::new(clone_strings(cidrs)) {
                        Some(m) => {
                            fresh.push(MatcherRule::new(rule.target.clone(), Matcher::Cidr(m)));
                        },
                        None => {},
                    }
                },
                None => {},
            }
            match &rule.regexp {
                Some(patterns) => {
                    let m = RegexpMatcher::new(patterns);
                    fresh.push(MatcherRule::new(rule.target.clone(), Matcher::Regexp(m)));
                },
                None => {},
            }
            let ghost fr = fresh@;
            let ghost prev = compiled@;
            proof {
                assert(rule_compiled(rules@[i as int], fr));
            }
            compiled.append(&mut fresh);
            proof {
                assert(compiled@ =~= prev + fr);
                let total = compiled@.len() as int;
                let kf = fr.len() as int;
                assert(compiled@.take(total - kf) =~= prev);
                assert(compiled@.skip(total - kf) =~= fr);
                assert(rules_compiled(rules@, i as int + 1, compiled@)) by {
                    assert(0 <= kf <= compiled@.len() && rules_compiled(
                        rules@,
                        i as int,
                        compiled@.take(compiled@.len() - kf),
                    ) && rule_compiled(rules@[i as int], compiled@.skip(compiled@.len() - kf)));
                }
            }
            i += 1;
        }
        Router { rules: compiled }
    }

    /// Routes a session: the target of the first rule whose matcher accepts
    /// it, in declaration order, or nothing when no rule matches.
    pub fn route(&self, sess: &Session) -> (r: Option<String>)
        requires
            self.wf(),
        ensures
            ({
                let w = first_match(self.rules@, *sess, 0);
                if w < self.rules@.len() {
                    r matches Some(t) && t@ == self.rules@[w].target@
                } else {
                    r is None
                }
            }),
    {
        let mut i: usize = 0;
        while i < self.rules.len()
            invariant
                i <= self.rules@.len(),
                self.wf(),
                first_match(self.rules@, *sess, 0) == first_match(self.rules@, *sess, i as int),
            decreases self.rules@.len() - i,
        {
            let rule = &self.rules[i];
            let hit = match &rule.matcher {
                Matcher::Domain(d) => d.apply(sess),
                Matcher::Cidr(c) => c.apply(sess),
                Matcher::Regexp(re) => re.apply(sess),
            };
            if hit {
                return Some(rule.target.clone());
            }
            i += 1;
        }
        None
    }
}

/// Router order: when two rules both accept a session, the route is decided
/// by a rule no later than the earlier of the two — the earlier declaration
/// wins over the later one.
pub proof fn lemma_router_order(rules: Seq<MatcherRule>, sess: Session, i: int, j: int)
    requires
        0 <= i < j < rules.len(),
        matcher_applies(rules[i].matcher, sess),
    ensures
        first_match(rules, sess, 0) <= i < j,
        matcher_applies(rules[first_match(rules, sess, 0)].matcher, sess),
    decreases rules.len(),
{
    lemma_first_match_min(rules, sess, 0, i);
}

/// The first match at or after `from` never lies past a matching index.
proof fn lemma_first_match_min(rules: Seq<MatcherRule>, sess: Session, from: int, hit: int)
    requires
        0 <= from <= hit < rules.len(),
        matcher_applies(rules[hit].matcher, sess),
    ensures
        from <= first_match(rules, sess, from) <= hit,
        matcher_applies(rules[first_match(rules, sess, from)].matcher, sess),
    decreases hit - from,
{
    if !matcher_applies(rules[from].matcher, sess) {
        lemma_first_match_min(rules, sess, from + 1, hit);
    }
}

} // verus!
