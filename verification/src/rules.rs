//! Per-domain cleaning rules, the table that holds them, and the built-in
//! rule set.

use vstd::prelude::*;
use crate::text::same_text;
use crate::table::{
    entries_map, keys_distinct, lemma_entries_map_dom, lemma_entries_map_finite, lemma_entries_map_get,
    lemma_entries_map_update,
};

verus! {

/// The characters of each text in a list of string slices.
pub open spec fn strs_view(s: Seq<&str>) -> Seq<Seq<char>> {
    Seq::new(s.len(), |i: int| s[i]@)
}

/// Owned copies of a list of string slices.
pub fn strings_from(items: &[&str]) -> (r: Vec<String>)
    ensures
        r.deep_view() == strs_view(items@),
{
    let mut out: Vec<String> = Vec::new();
    let mut i: usize = 0;
    while i < items.len()
        invariant
            i <= items@.len(),
            out@.len() == i,
            forall|j: int| 0 <= j < i ==> #[trigger] out@[j]@ == items@[j]@,
        decreases items@.len() - i,
    {
        let s: String = items[i].to_owned();
        out.push(s);
        i = i + 1;
    }
    proof {
        assert(out.deep_view() =~= strs_view(items@));
    }
    out
}

/// What a rule for one domain says.
pub struct DomainRuleView {
    /// Parameters removed on this domain (compared case-insensitively).
    pub params: Seq<Seq<char>>,
    /// Where set, the only parameters kept on this domain.
    pub keep_only: Option<Seq<Seq<char>>>,
    /// Regular expressions whose matches are cut out of the path.
    pub strip_path_patterns: Option<Seq<Seq<char>>>,
}

/// The cleaning rule for one domain.
#[derive(Debug)]
pub struct DomainRule {
    pub params: Vec<String>,
    pub keep_only: Option<Vec<String>>,
    pub strip_path_patterns: Option<Vec<String>>,
}

impl View for DomainRule {
    type V = DomainRuleView;

    open spec fn view(&self) -> DomainRuleView {
        DomainRuleView {
            params: self.params.deep_view(),
            keep_only: self.keep_only.deep_view(),
            strip_path_patterns: self.strip_path_patterns.deep_view(),
        }
    }
}

impl DomainRule {
    /// A rule that removes nothing and keeps everything.
    pub fn new() -> (r: Self)
        ensures
            r@.params == Seq::<Seq<char>>::empty(),
            r@.keep_only is None,
            r@.strip_path_patterns is None,
    {
        DomainRule { params: Vec::new(), keep_only: None, strip_path_patterns: None }
    }

    /// The rule with `params` added to the parameters it removes.
    pub fn block(self, params: &[&str]) -> (r: Self)
        ensures
            r@.params == self@.params + strs_view(params@),
            r@.keep_only == self@.keep_only,
            r@.strip_path_patterns == self@.strip_path_patterns,
    {
        let mut rule = self;
        let extra = strings_from(params);
        let mut i: usize = 0;
        while i < extra.len()
            invariant
                i <= extra.len(),
                extra.deep_view() == strs_view(params@),
                rule.params@.len() == self.params@.len() + i,
                forall|j: int| 0 <= j < self.params@.len() ==> #[trigger] rule.params@[j]@ == self.params@[j]@,
                forall|j: int| 0 <= j < i ==> #[trigger] rule.params@[self.params@.len() + j]@ == extra@[j]@,
                rule@.keep_only == self@.keep_only,
                rule@.strip_path_patterns == self@.strip_path_patterns,
            decreases extra.len() - i,
        {
            let s = extra[i].clone();
            rule.params.push(s);
            i = i + 1;
        }
        proof {
            let n = self.params@.len() as int;
            assert forall|k: int| 0 <= k < rule@.params.len() implies rule@.params[k] == (
            self@.params + extra.deep_view())[k] by {
                if k >= n {
                    assert(rule.params@[n + (k - n)]@ == extra@[k - n]@);
                }
            }
            assert(rule@.params =~= self@.params + extra.deep_view());
        }
        rule
    }

    /// The rule that keeps only the parameters `params` (replacing any
    /// earlier list).
    pub fn allow_only(self, params: &[&str]) -> (r: Self)
        ensures
            r@.params == self@.params,
            r@.keep_only == Some(strs_view(params@)),
            r@.strip_path_patterns == self@.strip_path_patterns,
    {
        let mut rule = self;
        rule.keep_only = Some(strings_from(params));
        rule
    }

    /// The rule with `patterns` added to its path patterns (a rule without
    /// path patterns starts from none).
    pub fn strip_path(self, patterns: &[&str]) -> (r: Self)
        ensures
            r@.params == self@.params,
            r@.keep_only == self@.keep_only,
            r@.strip_path_patterns == Some(
                match self@.strip_path_patterns {
                    Some(p) => p,
                    None => Seq::<Seq<char>>::empty(),
                } + strs_view(patterns@),
            ),
    {
        let mut rule = self;
        let mut current: Vec<String> = match rule.strip_path_patterns {
            Some(p) => p,
            None => Vec::new(),
        };
        let ghost start = current.deep_view();
        let extra = strings_from(patterns);
        let mut i: usize = 0;
        while i < extra.len()
            invariant
                i <= extra.len(),
                extra.deep_view() == strs_view(patterns@),
                current@.len() == start.len() + i,
                forall|j: int| 0 <= j < start.len() ==> #[trigger] current@[j]@ == start[j],
                forall|j: int| 0 <= j < i ==> #[trigger] current@[start.len() + j]@ == extra@[j]@,
            decreases extra.len() - i,
        {
            let s = extra[i].clone();
            current.push(s);
            i = i + 1;
        }
        proof {
            let n = start.len() as int;
            assert forall|k: int| 0 <= k < current@.len() implies current.deep_view()[k] == (
            start + extra.deep_view())[k] by {
                if k >= n {
                    assert(current@[n + (k - n)]@ == extra@[k - n]@);
                }
            }
            assert(current.deep_view() =~= start + extra.deep_view());
        }
        DomainRule {
            params: rule.params,
            keep_only: rule.keep_only,
            strip_path_patterns: Some(current),
        }
    }
}

/// A map from domain to rule, kept as a list in which no domain occurs twice.
#[derive(Debug)]
pub struct RuleTable {
    entries: Vec<(String, DomainRule)>,
}

impl RuleTable {
    /// The entries as plain values, in insertion order.
    pub closed spec fn entry_views(&self) -> Seq<(Seq<char>, DomainRuleView)> {
        Seq::new(self.entries@.len(), |i: int| (self.entries@[i].0@, self.entries@[i].1@))
    }

    #[verifier::type_invariant]
    closed spec fn wf(&self) -> bool {
        keys_distinct(self.entry_views())
    }
}

impl View for RuleTable {
    type V = Map<Seq<char>, DomainRuleView>;

    closed spec fn view(&self) -> Map<Seq<char>, DomainRuleView> {
        entries_map(self.entry_views())
    }
}

/// A rule read back after it was set is the rule set; the other domains
/// keep their rules.
pub proof fn lemma_rule_table_read_after_write(
    before: Map<Seq<char>, DomainRuleView>,
    after: Map<Seq<char>, DomainRuleView>,
    domain: Seq<char>,
    rule: DomainRuleView,
)
    requires
        after == before.insert(domain, rule),
    ensures
        after.contains_key(domain),
        after[domain] == rule,
        forall|d: Seq<char>|
            d != domain ==> (#[trigger] after.contains_key(d) == before.contains_key(d)) && (
            after.contains_key(d) ==> after[d] == before[d]),
{
}

impl RuleTable {
    /// A table without rules.
    pub fn new() -> (r: Self)
        ensures
            r@ == Map::<Seq<char>, DomainRuleView>::empty(),
    {
        let r = RuleTable { entries: Vec::new() };
        assert(r.entry_views() =~= Seq::empty());
        r
    }

    /// Sets the rule for `domain`, replacing any earlier one.
    pub fn insert(&mut self, domain: String, rule: DomainRule)
        ensures
            final(self)@ == old(self)@.insert(domain@, rule@),
    {
        proof {
            use_type_invariant(&*self);
        }
        let ghost old_views = self.entry_views();
        let ghost rv = rule@;
        let ghost old_map = self@;
        let n = self.entries.len();
        let mut i: usize = 0;
        while i < n
            invariant
                n == self.entries@.len(),
                old_views == self.entry_views(),
                old_map == entries_map(old_views),
                old_map == old(self)@,
                rv == rule@,
                keys_distinct(old_views),
                i <= n,
                forall|j: int| 0 <= j < i ==> #[trigger] old_views[j].0 != domain@,
            decreases n - i,
        {
            if self.entries[i].0 == domain {
                let ghost key = old_views[i as int].0;
                let mut entries: Vec<(String, DomainRule)> = Vec::new();
                std::mem::swap(&mut entries, &mut self.entries);
                entries.set(i, (domain, rule));
                let ghost nv = Seq::new(entries@.len(), |k: int| (entries@[k].0@, entries@[k].1@));
                proof {
                    assert(key == domain@);
                    lemma_entries_map_update(old_views, i as int, rule@);
                    assert(nv =~= old_views.update(i as int, (key, rule@)));
                }
                self.entries = entries;
                assert(self.entry_views() =~= nv);
                assert(self@ == entries_map(nv));
                assert(entries_map(nv) == old_map.insert(domain@, rv));
                return;
            }
            i = i + 1;
        }
        let mut entries: Vec<(String, DomainRule)> = Vec::new();
                std::mem::swap(&mut entries, &mut self.entries);
        entries.push((domain, rule));
        proof {
            let nv = Seq::new(entries@.len(), |k: int| (entries@[k].0@, entries@[k].1@));
            assert(nv =~= old_views.push((domain@, rule@)));
            assert(nv.drop_last() =~= old_views);
        }
        self.entries = entries;
    }

    /// The rule for `domain`, if there is one.
    pub fn get(&self, domain: &str) -> (r: Option<&DomainRule>)
        ensures
            r is Some <==> self@.contains_key(domain@),
            r matches Some(rule) ==> rule@ == self@[domain@],
    {
        proof {
            use_type_invariant(self);
        }
        let ghost views = self.entry_views();
        let n = self.entries.len();
        let mut i: usize = 0;
        while i < n
            invariant
                n == self.entries@.len(),
                views == self.entry_views(),
                keys_distinct(views),
                i <= n,
                forall|j: int| 0 <= j < i ==> #[trigger] views[j].0 != domain@,
            decreases n - i,
        {
            if same_text(self.entries[i].0.as_str(), domain) {
                proof {
                    lemma_entries_map_get(views, i as int);
                }
                return Some(&self.entries[i].1);
            }
            i = i + 1;
        }
        proof {
            lemma_entries_map_dom(views, domain@);
        }
        None
    }

    /// The number of domains with a rule.
    pub fn len(&self) -> (r: usize)
        ensures
            r == self@.len(),
            self@.dom().finite(),
    {
        proof {
            use_type_invariant(self);
            lemma_entries_map_finite(self.entry_views());
        }
        self.entries.len()
    }

    /// The domains with a rule, each once.
    pub fn domains(&self) -> (r: Vec<String>)
        ensures
            r@.len() == self@.len(),
            forall|i: int| 0 <= i < r@.len() ==> self@.contains_key(#[trigger] r@[i]@),
            forall|k: Seq<char>| #[trigger] self@.contains_key(k) ==> exists|i: int|
                0 <= i < r@.len() && r@[i]@ == k,
    {
        proof {
            use_type_invariant(self);
            lemma_entries_map_finite(self.entry_views());
        }
        let ghost views = self.entry_views();
        let mut out: Vec<String> = Vec::new();
        let n = self.entries.len();
        let mut i: usize = 0;
        while i < n
            invariant
                n == self.entries@.len(),
                views == self.entry_views(),
                i <= n,
                out@.len() == i,
                forall|j: int| 0 <= j < i ==> #[trigger] out@[j]@ == views[j].0,
            decreases n - i,
        {
            out.push(self.entries[i].0.clone());
            i = i + 1;
        }
        proof {
            assert forall|k: int| 0 <= k < out@.len() implies self@.contains_key(
                #[trigger] out@[k]@,
            ) by {
                lemma_entries_map_dom(views, out@[k]@);
            }
            assert forall|k: Seq<char>| #[trigger] self@.contains_key(k) implies exists|i: int|
                0 <= i < out@.len() && out@[i]@ == k by {
                lemma_entries_map_dom(views, k);
                let i = choose|i: int| 0 <= i < views.len() && #[trigger] views[i].0 == k;
                assert(out@[i]@ == k);
            }
        }
        out
    }
}

/// What a rule set says.
pub struct ConfigView {
    /// Parameters removed on every domain (compared case-insensitively).
    pub global_params: Seq<Seq<char>>,
    /// The rule of each domain that has one.
    pub domain_rules: Map<Seq<char>, DomainRuleView>,
    /// Domains (by containment) whose links are never touched.
    pub whitelist_domains: Seq<Seq<char>>,
    /// Regular expressions for parameter names to remove.
    pub custom_patterns: Seq<Seq<char>>,
    pub strip_fragments: bool,
    pub normalize_urls: bool,
    pub aggressive_mode: bool,
}

/// The built-in parameters removed everywhere.
pub open spec fn default_global_params() -> Seq<Seq<char>> {
    seq![
        "utm_source"@,
        "utm_medium"@,
        "utm_campaign"@,
        "utm_term"@,
        "utm_content"@,
        "utm_id"@,
        "utm_source_platform"@,
        "utm_creative_format"@,
        "utm_marketing_tactic"@,
        "fbclid"@,
        "gclid"@,
        "gclsrc"@,
        "dclid"@,
        "gbraid"@,
        "wbraid"@,
        "msclkid"@,
        "mc_eid"@,
        "mc_cid"@,
        "oly_anon_id"@,
        "oly_enc_id"@,
        "_openstat"@,
        "vero_id"@,
        "vero_conv"@,
        "affiliate"@,
        "aff"@,
        "partner"@,
        "ref"@,
        "click"@,
        "clickid"@,
        "click_id"@,
        "hsCtaTracking"@,
        "hsa_acc"@,
        "hsa_cam"@,
        "hsa_grp"@,
        "hsa_ad"@,
        "hsa_src"@,
        "hsa_tgt"@,
        "hsa_kw"@,
        "hsa_mt"@,
        "hsa_net"@,
        "hsa_ver"@,
        "mkt_tok"@,
        "trk"@,
        "trkid"@,
        "s_kwcid"@,
        "ef_id"@,
        "__s"@,
        "_branch_match_id"@,
        "_branch_referrer"@,
        "irclickid"@,
        "irgwc"@,
        "_ga"@,
        "_gl"@,
        "_hsenc"@,
        "_hsmi"@,
        "yclid"@,
        "ymclid"@,
        "wickedid"@,
        "wickedsource"@,
        "rb_clickid"@,
        "sscid"@,
        "guccounter"@,
        "guce_referrer"@,
        "guce_referrer_sig"@,
        "__cf_chl_rt_tk"@,
    ]
}

/// The built-in parameter-name patterns.
pub open spec fn default_custom_patterns() -> Seq<Seq<char>> {
    seq![
        "^_[a-z]{2,4}$"@,
        "^(ttclid|twclkid|li_fat_id)$"@,
    ]
}

/// A rule that only removes parameters.
pub open spec fn blocking_rule(params: Seq<Seq<char>>) -> DomainRuleView {
    DomainRuleView { params, keep_only: None, strip_path_patterns: None }
}

/// The built-in per-domain rules.
pub open spec fn default_domain_rules() -> Map<Seq<char>, DomainRuleView> {
    Map::<Seq<char>, DomainRuleView>::empty()
        .insert(
            "youtube.com"@,
            DomainRuleView {
                params: seq![
                    "si"@,
                    "feature"@,
                    "pp"@,
                    "embeds_referring_euri"@,
                    "source_ve_path"@,
                ],
                keep_only: Some(seq![
                    "v"@,
                    "t"@,
                    "list"@,
                    "index"@,
                ]),
                strip_path_patterns: None,
            },
        )
        .insert(
            "twitter.com"@,
            blocking_rule(seq![
                "s"@,
                "t"@,
                "ref_src"@,
                "ref_url"@,
            ]),
        )
        .insert(
            "x.com"@,
            blocking_rule(seq![
                "s"@,
                "t"@,
                "ref_src"@,
                "ref_url"@,
            ]),
        )
        .insert(
            "amazon.com"@,
            DomainRuleView {
                params: seq![
                    "tag"@,
                    "linkCode"@,
                    "linkId"@,
                    "ref"@,
                    "ref_"@,
                    "pf_rd_r"@,
                    "pf_rd_p"@,
                    "pf_rd_s"@,
                    "pf_rd_t"@,
                    "pf_rd_i"@,
                    "pd_rd_r"@,
                    "pd_rd_w"@,
                    "pd_rd_wg"@,
                    "psc"@,
                    "content-id"@,
                    "crid"@,
                    "sprefix"@,
                    "th"@,
                ],
                keep_only: None,
                strip_path_patterns: Some(seq![
                    r"/ref=[^/\?]*"@,
                ]),
            },
        )
        .insert(
            "facebook.com"@,
            blocking_rule(seq![
                "fbclid"@,
                "__tn__"@,
                "__cft__"@,
                "ref"@,
                "fref"@,
                "hc_ref"@,
            ]),
        )
        .insert(
            "instagram.com"@,
            blocking_rule(seq![
                "igshid"@,
                "igsh"@,
                "utm_source"@,
            ]),
        )
        .insert(
            "tiktok.com"@,
            blocking_rule(seq![
                "_t"@,
                "_r"@,
                "is_from_webapp"@,
                "sender_device"@,
                "enter_method"@,
            ]),
        )
        .insert(
            "linkedin.com"@,
            blocking_rule(seq![
                "trk"@,
                "trkInfo"@,
                "originalReferer"@,
                "upsellOrderOrigin"@,
                "midToken"@,
                "midSig"@,
                "lipi"@,
            ]),
        )
        .insert(
            "reddit.com"@,
            blocking_rule(seq![
                "share_id"@,
                "utm_medium"@,
                "utm_source"@,
                "utm_name"@,
                "context"@,
                "ref"@,
                "ref_source"@,
            ]),
        )
        .insert(
            "spotify.com"@,
            blocking_rule(seq![
                "si"@,
                "context"@,
                "nd"@,
            ]),
        )
        .insert(
            "ebay.com"@,
            blocking_rule(seq![
                "_trkparms"@,
                "_trksid"@,
                "amdata"@,
                "mkevt"@,
                "mkcid"@,
                "mkrid"@,
                "campid"@,
                "toolid"@,
                "customid"@,
            ]),
        )
        .insert(
            "aliexpress.com"@,
            blocking_rule(seq![
                "spm"@,
                "algo_pvid"@,
                "algo_expid"@,
                "btsid"@,
                "ws_ab_test"@,
                "pdp_npi"@,
                "scm"@,
                "scm_id"@,
                "scm-url"@,
                "pvid"@,
                "utparam"@,
                "gatewayAda498"@,
                "_t"@,
                "sk"@,
                "aff_fcid"@,
                "aff_fsk"@,
                "aff_platform"@,
                "aff_trace_key"@,
                "terminal_id"@,
            ]),
        )
}

/// The built-in rule set.
pub open spec fn default_config() -> ConfigView {
    ConfigView {
        global_params: default_global_params(),
        domain_rules: default_domain_rules(),
        whitelist_domains: Seq::empty(),
        custom_patterns: default_custom_patterns(),
        strip_fragments: false,
        normalize_urls: true,
        aggressive_mode: false,
    }
}

/// A rule set: parameters removed everywhere, per-domain rules, and switches.
#[derive(Debug)]
pub struct Config {
    pub global_params: Vec<String>,
    pub domain_rules: RuleTable,
    pub whitelist_domains: Vec<String>,
    pub custom_patterns: Vec<String>,
    pub strip_fragments: bool,
    pub normalize_urls: bool,
    pub aggressive_mode: bool,
}

impl View for Config {
    type V = ConfigView;

    open spec fn view(&self) -> ConfigView {
        ConfigView {
            global_params: self.global_params.deep_view(),
            domain_rules: self.domain_rules@,
            whitelist_domains: self.whitelist_domains.deep_view(),
            custom_patterns: self.custom_patterns.deep_view(),
            strip_fragments: self.strip_fragments,
            normalize_urls: self.normalize_urls,
            aggressive_mode: self.aggressive_mode,
        }
    }
}

/// The built-in per-domain rules.
pub fn default_rule_table() -> (r: RuleTable)
    ensures
        r@ == default_domain_rules(),
{
    let mut rules = RuleTable::new();
    let rule = DomainRule::new().block(&[
                "si",
                "feature",
                "pp",
                "embeds_referring_euri",
                "source_ve_path",
            ]).allow_only(&[
                "v",
                "t",
                "list",
                "index",
            ]);
    proof {
        assert(rule@.params =~= seq![
                    "si"@,
                    "feature"@,
                    "pp"@,
                    "embeds_referring_euri"@,
                    "source_ve_path"@,
                ]);
    }
    proof {
        assert(rule@.keep_only->0 =~= seq![
                    "v"@,
                    "t"@,
                    "list"@,
                    "index"@,
                ]);
    }
    rules.insert("youtube.com".to_owned(), rule);
    let rule = DomainRule::new().block(&[
                "s",
                "t",
                "ref_src",
                "ref_url",
            ]);
    proof {
        assert(rule@.params =~= seq![
                "s"@,
                "t"@,
                "ref_src"@,
                "ref_url"@,
            ]);
    }
    rules.insert("twitter.com".to_owned(), rule);
    let rule = DomainRule::new().block(&[
                "s",
                "t",
                "ref_src",
                "ref_url",
            ]);
    proof {
        assert(rule@.params =~= seq![
                "s"@,
                "t"@,
                "ref_src"@,
                "ref_url"@,
            ]);
    }
    rules.insert("x.com".to_owned(), rule);
    let rule = DomainRule::new().block(&[
                "tag",
                "linkCode",
                "linkId",
                "ref",
                "ref_",
                "pf_rd_r",
                "pf_rd_p",
                "pf_rd_s",
                "pf_rd_t",
                "pf_rd_i",
                "pd_rd_r",
                "pd_rd_w",
                "pd_rd_wg",
                "psc",
                "content-id",
                "crid",
                "sprefix",
                "th",
            ]).strip_path(&[
                r"/ref=[^/\?]*",
            ]);
    proof {
        assert(rule@.params =~= seq![
                    "tag"@,
                    "linkCode"@,
                    "linkId"@,
                    "ref"@,
                    "ref_"@,
                    "pf_rd_r"@,
                    "pf_rd_p"@,
                    "pf_rd_s"@,
                    "pf_rd_t"@,
                    "pf_rd_i"@,
                    "pd_rd_r"@,
                    "pd_rd_w"@,
                    "pd_rd_wg"@,
                    "psc"@,
                    "content-id"@,
                    "crid"@,
                    "sprefix"@,
                    "th"@,
                ]);
    }
    proof {
        assert(rule@.strip_path_patterns->0 =~= seq![
                    r"/ref=[^/\?]*"@,
                ]);
    }
    rules.insert("amazon.com".to_owned(), rule);
    let rule = DomainRule::new().block(&[
                "fbclid",
                "__tn__",
                "__cft__",
                "ref",
                "fref",
                "hc_ref",
            ]);
    proof {
        assert(rule@.params =~= seq![
                "fbclid"@,
                "__tn__"@,
                "__cft__"@,
                "ref"@,
                "fref"@,
                "hc_ref"@,
            ]);
    }
    rules.insert("facebook.com".to_owned(), rule);
    let rule = DomainRule::new().block(&[
                "igshid",
                "igsh",
                "utm_source",
            ]);
    proof {
        assert(rule@.params =~= seq![
                "igshid"@,
                "igsh"@,
                "utm_source"@,
            ]);
    }
    rules.insert("instagram.com".to_owned(), rule);
    let rule = DomainRule::new().block(&[
                "_t",
                "_r",
                "is_from_webapp",
                "sender_device",
                "enter_method",
            ]);
    proof {
        assert(rule@.params =~= seq![
                "_t"@,
                "_r"@,
                "is_from_webapp"@,
                "sender_device"@,
                "enter_method"@,
            ]);
    }
    rules.insert("tiktok.com".to_owned(), rule);
    let rule = DomainRule::new().block(&[
                "trk",
                "trkInfo",
                "originalReferer",
                "upsellOrderOrigin",
                "midToken",
                "midSig",
                "lipi",
            ]);
    proof {
        assert(rule@.params =~= seq![
                "trk"@,
                "trkInfo"@,
                "originalReferer"@,
                "upsellOrderOrigin"@,
                "midToken"@,
                "midSig"@,
                "lipi"@,
            ]);
    }
    rules.insert("linkedin.com".to_owned(), rule);
    let rule = DomainRule::new().block(&[
                "share_id",
                "utm_medium",
                "utm_source",
                "utm_name",
                "context",
                "ref",
                "ref_source",
            ]);
    proof {
        assert(rule@.params =~= seq![
                "share_id"@,
                "utm_medium"@,
                "utm_source"@,
                "utm_name"@,
                "context"@,
                "ref"@,
                "ref_source"@,
            ]);
    }
    rules.insert("reddit.com".to_owned(), rule);
    let rule = DomainRule::new().block(&[
                "si",
                "context",
                "nd",
            ]);
    proof {
        assert(rule@.params =~= seq![
                "si"@,
                "context"@,
                "nd"@,
            ]);
    }
    rules.insert("spotify.com".to_owned(), rule);
    let rule = DomainRule::new().block(&[
                "_trkparms",
                "_trksid",
                "amdata",
                "mkevt",
                "mkcid",
                "mkrid",
                "campid",
                "toolid",
                "customid",
            ]);
    proof {
        assert(rule@.params =~= seq![
                "_trkparms"@,
                "_trksid"@,
                "amdata"@,
                "mkevt"@,
                "mkcid"@,
                "mkrid"@,
                "campid"@,
                "toolid"@,
                "customid"@,
            ]);
    }
    rules.insert("ebay.com".to_owned(), rule);
    let rule = DomainRule::new().block(&[
                "spm",
                "algo_pvid",
                "algo_expid",
                "btsid",
                "ws_ab_test",
                "pdp_npi",
                "scm",
                "scm_id",
                "scm-url",
                "pvid",
                "utparam",
                "gatewayAda498",
                "_t",
                "sk",
                "aff_fcid",
                "aff_fsk",
                "aff_platform",
                "aff_trace_key",
                "terminal_id",
            ]);
    proof {
        assert(rule@.params =~= seq![
                "spm"@,
                "algo_pvid"@,
                "algo_expid"@,
                "btsid"@,
                "ws_ab_test"@,
                "pdp_npi"@,
                "scm"@,
                "scm_id"@,
                "scm-url"@,
                "pvid"@,
                "utparam"@,
                "gatewayAda498"@,
                "_t"@,
                "sk"@,
                "aff_fcid"@,
                "aff_fsk"@,
                "aff_platform"@,
                "aff_trace_key"@,
                "terminal_id"@,
            ]);
    }
    rules.insert("aliexpress.com".to_owned(), rule);
    proof {
        assert(rules@ =~= default_domain_rules());
    }
    rules
}

impl Default for Config {
    /// The built-in rule set.
    fn default() -> (r: Self)
        ensures
            r@ == default_config(),
    {
        let global_params = strings_from(&[
                "utm_source",
                "utm_medium",
                "utm_campaign",
                "utm_term",
                "utm_content",
                "utm_id",
                "utm_source_platform",
                "utm_creative_format",
                "utm_marketing_tactic",
                "fbclid",
                "gclid",
                "gclsrc",
                "dclid",
                "gbraid",
                "wbraid",
                "msclkid",
                "mc_eid",
                "mc_cid",
                "oly_anon_id",
                "oly_enc_id",
                "_openstat",
                "vero_id",
                "vero_conv",
                "affiliate",
                "aff",
                "partner",
                "ref",
                "click",
                "clickid",
                "click_id",
                "hsCtaTracking",
                "hsa_acc",
                "hsa_cam",
                "hsa_grp",
                "hsa_ad",
                "hsa_src",
                "hsa_tgt",
                "hsa_kw",
                "hsa_mt",
                "hsa_net",
                "hsa_ver",
                "mkt_tok",
                "trk",
                "trkid",
                "s_kwcid",
                "ef_id",
                "__s",
                "_branch_match_id",
                "_branch_referrer",
                "irclickid",
                "irgwc",
                "_ga",
                "_gl",
                "_hsenc",
                "_hsmi",
                "yclid",
                "ymclid",
                "wickedid",
                "wickedsource",
                "rb_clickid",
                "sscid",
                "guccounter",
                "guce_referrer",
                "guce_referrer_sig",
                "__cf_chl_rt_tk",
            ]);
        let custom_patterns = strings_from(&[
                "^_[a-z]{2,4}$",
                "^(ttclid|twclkid|li_fat_id)$",
            ]);
        let r = Config {
            global_params,
            domain_rules: default_rule_table(),
            whitelist_domains: Vec::new(),
            custom_patterns,
            strip_fragments: false,
            normalize_urls: true,
            aggressive_mode: false,
        };
        proof {
            assert(r@.global_params =~= default_global_params());
            assert(r@.custom_patterns =~= default_custom_patterns());
            assert(r@.whitelist_domains =~= Seq::<Seq<char>>::empty());
        }
        r
    }
}

} // verus!
