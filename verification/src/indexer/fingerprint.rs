//! The identity of a run's configuration: a run can be continued only under the same.
use crate::hashing::{sha256_hex, text_hash};
use crate::indexer::builder::{IndexRunBuilder, ProviderIdentity};
use crate::indexer::policy::{RefreshMode, RefreshPolicy, RetryBackoff, RevisionTrust};
use crate::indexer::provider::SourceProvider;
use crate::indexer::settings::{EnricherIdentity, IndexSettings};
use crate::json::{
    every_member_is_in_an_object, json_literal, member_views, object_text, quote, write_object,
};
use crate::text::{
    a_text_is_in_what_surrounds_it, concat, decimal, decimal_text, every_part_is_in_a_joined_text,
    has, join, joined, parts_of_parts_are_parts, signed_decimal, signed_text, views,
};
use vstd::prelude::*;
use vstd::string::*;

verus! {

/// The JSON text of a list whose items are given as texts.
pub open spec fn list_text(items: Seq<Seq<char>>) -> Seq<char> {
    "["@ + joined(items, ","@) + "]"@
}

fn write_list(items: &Vec<String>) -> (r: String)
    ensures
        r@ == list_text(views(items@)),
{
    let mut text = concat("[", join(items, ",").as_str());
    text.append("]");
    text
}

/// The JSON literals of texts.
pub open spec fn literals(texts: Seq<Seq<char>>) -> Seq<Seq<char>> {
    Seq::new(texts.len(), |i: int| json_literal(texts[i]))
}

fn quote_all(texts: &Vec<String>) -> (r: Vec<String>)
    ensures
        views(r@) == literals(views(texts@)),
{
    let mut out: Vec<String> = Vec::new();
    let mut i: usize = 0;
    while i < texts.len()
        invariant
            i <= texts@.len(),
            out@.len() == i,
            forall|j: int| 0 <= j < i ==> (#[trigger] out@[j])@ == json_literal(texts@[j]@),
        decreases texts@.len() - i,
    {
        out.push(quote(texts[i].as_str()));
        i += 1;
    }
    assert(views(out@) =~= literals(views(texts@)));
    out
}

/// The JSON text of the settings.
pub open spec fn settings_text(settings: IndexSettings) -> Seq<char> {
    object_text(
        seq![
            (
                "enabled_languages"@,
                list_text(literals(views(settings.enabled_languages@))),
            ),
            (
                "body_node_count_threshold"@,
                decimal(settings.body_node_count_threshold as nat),
            ),
            ("max_body_chars"@, decimal(settings.max_body_chars as nat)),
            ("retention"@, json_literal(settings.retention.token())),
        ],
    )
}

fn write_settings(settings: &IndexSettings) -> (r: String)
    ensures
        r@ == settings_text(*settings),
{
    let members: Vec<(&str, String)> = vec![
        ("enabled_languages", write_list(&quote_all(&settings.enabled_languages))),
        (
            "body_node_count_threshold",
            decimal_text(settings.body_node_count_threshold as u64),
        ),
        ("max_body_chars", decimal_text(settings.max_body_chars as u64)),
        ("retention", quote(settings.retention.as_str())),
    ];
    assert(member_views(members@) =~= seq![
        ("enabled_languages"@, list_text(literals(views(settings.enabled_languages@)))),
        ("body_node_count_threshold"@, decimal(settings.body_node_count_threshold as nat)),
        ("max_body_chars"@, decimal(settings.max_body_chars as nat)),
        ("retention"@, json_literal(settings.retention.token())),
    ]);
    write_object(&members)
}

/// The JSON text of a provider: its label, its locator and its fingerprint.
pub open spec fn provider_text(provider: ProviderIdentity) -> Seq<char> {
    list_text(
        literals(seq![provider.label@, provider.locator@, provider.fingerprint@]),
    )
}

fn write_provider(provider: &ProviderIdentity) -> (r: String)
    ensures
        r@ == provider_text(*provider),
{
    let parts: Vec<String> = vec![
        quote(provider.label.as_str()),
        quote(provider.locator.as_str()),
        quote(provider.fingerprint.as_str()),
    ];
    assert(views(parts@) =~= literals(
        seq![provider.label@, provider.locator@, provider.fingerprint@],
    ));
    write_list(&parts)
}

/// The JSON text of an enricher.
pub open spec fn enricher_text(enricher: EnricherIdentity) -> Seq<char> {
    object_text(
        seq![
            ("producer"@, json_literal(enricher.producer@)),
            ("version"@, json_literal(enricher.version@)),
            ("config_fingerprint"@, json_literal(enricher.config_fingerprint@)),
        ],
    )
}

fn write_enricher(enricher: &EnricherIdentity) -> (r: String)
    ensures
        r@ == enricher_text(*enricher),
{
    let members: Vec<(&str, String)> = vec![
        ("producer", quote(enricher.producer.as_str())),
        ("version", quote(enricher.version.as_str())),
        ("config_fingerprint", quote(enricher.config_fingerprint.as_str())),
    ];
    assert(member_views(members@) =~= seq![
        ("producer"@, json_literal(enricher.producer@)),
        ("version"@, json_literal(enricher.version@)),
        ("config_fingerprint"@, json_literal(enricher.config_fingerprint@)),
    ]);
    write_object(&members)
}

/// The JSON text of how a failing step is tried again.
pub open spec fn backoff_text(backoff: RetryBackoff) -> Seq<char> {
    object_text(
        seq![
            ("initial_millis"@, decimal(backoff.initial_millis as nat)),
            ("maximum_millis"@, decimal(backoff.maximum_millis as nat)),
        ],
    )
}

fn write_backoff(backoff: RetryBackoff) -> (r: String)
    ensures
        r@ == backoff_text(backoff),
{
    let members: Vec<(&str, String)> = vec![
        ("initial_millis", decimal_text(backoff.initial_millis)),
        ("maximum_millis", decimal_text(backoff.maximum_millis)),
    ];
    assert(member_views(members@) =~= seq![
        ("initial_millis"@, decimal(backoff.initial_millis as nat)),
        ("maximum_millis"@, decimal(backoff.maximum_millis as nat)),
    ]);
    write_object(&members)
}

/// The name under which the trust in revisions is stored.
pub open spec fn trust_name(trust: RevisionTrust) -> Seq<char> {
    match trust {
        RevisionTrust::VerifyContent => "verify_content"@,
        RevisionTrust::TrustAdvisory => "trust_advisory"@,
    }
}

/// The name under which the mode of refreshing is stored.
pub open spec fn mode_name(mode: RefreshMode) -> Seq<char> {
    match mode {
        RefreshMode::Automatic => "automatic"@,
        RefreshMode::PauseOnChange => "pause_on_change"@,
    }
}

/// The JSON text of a run's configuration.
pub open spec fn config_text(
    settings: IndexSettings,
    providers: Seq<ProviderIdentity>,
    enrichers: Seq<EnricherIdentity>,
    trust: RevisionTrust,
    refresh: RefreshPolicy,
    schema_version: i64,
    frontend_version: Seq<char>,
) -> Seq<char> {
    object_text(
        seq![
            ("settings"@, settings_text(settings)),
            (
                "providers"@,
                list_text(Seq::new(providers.len(), |i: int| provider_text(providers[i]))),
            ),
            (
                "enrichers"@,
                list_text(Seq::new(enrichers.len(), |i: int| enricher_text(enrichers[i]))),
            ),
            ("revision_trust"@, json_literal(trust_name(trust))),
            ("refresh_mode"@, json_literal(mode_name(refresh.mode))),
            ("settle_delay_millis"@, decimal(refresh.settle_delay_millis as nat)),
            ("retry_backoff"@, backoff_text(refresh.retry_backoff)),
            ("payload_schema_version"@, signed_decimal(schema_version as int)),
            ("frontend_version"@, json_literal(frontend_version)),
        ],
    )
}

impl<'a, P: SourceProvider + ?Sized> IndexRunBuilder<'a, P> {
    /// The run's configuration as it is stored, with the providers in the order of
    /// their labels.
    pub fn config_json(
        &self,
        providers: &Vec<ProviderIdentity>,
        schema_version: i64,
        frontend_version: &str,
    ) -> (r: String)
        ensures
            r@ == config_text(
                self.settings,
                providers@,
                self.enrichers@,
                self.revision_trust,
                self.refresh_policy,
                schema_version,
                frontend_version@,
            ),
    {
        let mut provider_items: Vec<String> = Vec::new();
        let mut i: usize = 0;
        while i < providers.len()
            invariant
                i <= providers@.len(),
                provider_items@.len() == i,
                forall|j: int|
                    0 <= j < i ==> (#[trigger] provider_items@[j])@ == provider_text(providers@[j]),
            decreases providers@.len() - i,
        {
            provider_items.push(write_provider(&providers[i]));
            i += 1;
        }
        let mut enricher_items: Vec<String> = Vec::new();
        let mut k: usize = 0;
        while k < self.enrichers.len()
            invariant
                k <= self.enrichers@.len(),
                enricher_items@.len() == k,
                forall|j: int|
                    0 <= j < k ==> (#[trigger] enricher_items@[j])@ == enricher_text(
                        self.enrichers@[j],
                    ),
            decreases self.enrichers@.len() - k,
        {
            enricher_items.push(write_enricher(&self.enrichers[k]));
            k += 1;
        }
        let ghost provider_texts = Seq::new(
            providers@.len(),
            |i: int| provider_text(providers@[i]),
        );
        let ghost enricher_texts = Seq::new(
            self.enrichers@.len(),
            |i: int| enricher_text(self.enrichers@[i]),
        );
        assert(views(provider_items@) =~= provider_texts);
        assert(views(enricher_items@) =~= enricher_texts);
        let trust = match self.revision_trust {
            RevisionTrust::VerifyContent => "verify_content",
            RevisionTrust::TrustAdvisory => "trust_advisory",
        };
        let mode = match self.refresh_policy.mode {
            RefreshMode::Automatic => "automatic",
            RefreshMode::PauseOnChange => "pause_on_change",
        };
        let members: Vec<(&str, String)> = vec![
            ("settings", write_settings(&self.settings)),
            ("providers", write_list(&provider_items)),
            ("enrichers", write_list(&enricher_items)),
            ("revision_trust", quote(trust)),
            ("refresh_mode", quote(mode)),
            ("settle_delay_millis", decimal_text(self.refresh_policy.settle_delay_millis)),
            ("retry_backoff", write_backoff(self.refresh_policy.retry_backoff)),
            ("payload_schema_version", signed_text(schema_version)),
            ("frontend_version", quote(frontend_version)),
        ];
        assert(member_views(members@) =~= seq![
            ("settings"@, settings_text(self.settings)),
            ("providers"@, list_text(provider_texts)),
            ("enrichers"@, list_text(enricher_texts)),
            ("revision_trust"@, json_literal(trust_name(self.revision_trust))),
            ("refresh_mode"@, json_literal(mode_name(self.refresh_policy.mode))),
            (
                "settle_delay_millis"@,
                decimal(self.refresh_policy.settle_delay_millis as nat),
            ),
            ("retry_backoff"@, backoff_text(self.refresh_policy.retry_backoff)),
            ("payload_schema_version"@, signed_decimal(schema_version as int)),
            ("frontend_version"@, json_literal(frontend_version@)),
        ]);
        write_object(&members)
    }

    /// The fingerprint of the run's configuration: the hash of its text.
    pub fn config_fingerprint(
        &self,
        providers: &Vec<ProviderIdentity>,
        schema_version: i64,
        frontend_version: &str,
    ) -> (r: String)
        ensures
            r@ == text_hash(
                config_text(
                    self.settings,
                    providers@,
                    self.enrichers@,
                    self.revision_trust,
                    self.refresh_policy,
                    schema_version,
                    frontend_version@,
                ),
            ),
    {
        sha256_hex(self.config_json(providers, schema_version, frontend_version).as_str())
    }
}

/// The text that a configuration is known by names everything that a run's work depends on:
/// the settings, each provider, each enricher, the trust in revisions, how sources are
/// refreshed, and the versions of the payload and the frontend.
pub proof fn a_configuration_is_known_by_everything(
    settings: IndexSettings,
    providers: Seq<ProviderIdentity>,
    enrichers: Seq<EnricherIdentity>,
    trust: RevisionTrust,
    refresh: RefreshPolicy,
    schema_version: i64,
    frontend_version: Seq<char>,
)
    ensures
        ({
            let text = config_text(
                settings,
                providers,
                enrichers,
                trust,
                refresh,
                schema_version,
                frontend_version,
            );
            &&& has(text, settings_text(settings))
            &&& forall|i: int|
                0 <= i < providers.len() ==> has(text, provider_text(#[trigger] providers[i]))
            &&& forall|i: int|
                0 <= i < enrichers.len() ==> has(text, enricher_text(#[trigger] enrichers[i]))
            &&& has(text, json_literal(trust_name(trust)))
            &&& has(text, json_literal(mode_name(refresh.mode)))
            &&& has(text, decimal(refresh.settle_delay_millis as nat))
            &&& has(text, backoff_text(refresh.retry_backoff))
            &&& has(text, signed_decimal(schema_version as int))
            &&& has(text, json_literal(frontend_version))
        }),
{
    let provider_texts = Seq::new(providers.len(), |i: int| provider_text(providers[i]));
    let enricher_texts = Seq::new(enrichers.len(), |i: int| enricher_text(enrichers[i]));
    let members = seq![
        ("settings"@, settings_text(settings)),
        ("providers"@, list_text(provider_texts)),
        ("enrichers"@, list_text(enricher_texts)),
        ("revision_trust"@, json_literal(trust_name(trust))),
        ("refresh_mode"@, json_literal(mode_name(refresh.mode))),
        ("settle_delay_millis"@, decimal(refresh.settle_delay_millis as nat)),
        ("retry_backoff"@, backoff_text(refresh.retry_backoff)),
        ("payload_schema_version"@, signed_decimal(schema_version as int)),
        ("frontend_version"@, json_literal(frontend_version)),
    ];
    let text = config_text(
        settings,
        providers,
        enrichers,
        trust,
        refresh,
        schema_version,
        frontend_version,
    );
    assert(text == object_text(members));
    every_member_is_in_an_object(members, 0);
    every_member_is_in_an_object(members, 1);
    every_member_is_in_an_object(members, 2);
    every_member_is_in_an_object(members, 3);
    every_member_is_in_an_object(members, 4);
    every_member_is_in_an_object(members, 5);
    every_member_is_in_an_object(members, 6);
    every_member_is_in_an_object(members, 7);
    every_member_is_in_an_object(members, 8);
    assert forall|i: int| 0 <= i < providers.len() implies has(
        text,
        provider_text(#[trigger] providers[i]),
    ) by {
        every_item_is_in_a_list(provider_texts, i);
        parts_of_parts_are_parts(text, list_text(provider_texts), provider_texts[i]);
    }
    assert forall|i: int| 0 <= i < enrichers.len() implies has(
        text,
        enricher_text(#[trigger] enrichers[i]),
    ) by {
        every_item_is_in_a_list(enricher_texts, i);
        parts_of_parts_are_parts(text, list_text(enricher_texts), enricher_texts[i]);
    }
}

/// Each item of a list is in its text.
pub proof fn every_item_is_in_a_list(items: Seq<Seq<char>>, i: int)
    requires
        0 <= i < items.len(),
    ensures
        has(list_text(items), items[i]),
{
    every_part_is_in_a_joined_text(items, ","@, i);
    a_text_is_in_what_surrounds_it("["@, joined(items, ","@), "]"@);
    parts_of_parts_are_parts(list_text(items), joined(items, ","@), items[i]);
}

/// The text of the settings names each of them, that of a provider its label, its place and
/// its fingerprint, that of an enricher its producer, its version and its fingerprint, and
/// that of a wait its bounds.
pub proof fn each_part_of_a_configuration_is_named(
    settings: IndexSettings,
    provider: ProviderIdentity,
    enricher: EnricherIdentity,
    backoff: RetryBackoff,
)
    ensures
        forall|i: int|
            0 <= i < settings.enabled_languages@.len() ==> has(
                settings_text(settings),
                json_literal((#[trigger] settings.enabled_languages@[i])@),
            ),
        has(settings_text(settings), decimal(settings.body_node_count_threshold as nat)),
        has(settings_text(settings), decimal(settings.max_body_chars as nat)),
        has(settings_text(settings), json_literal(settings.retention.token())),
        has(provider_text(provider), json_literal(provider.label@)),
        has(provider_text(provider), json_literal(provider.locator@)),
        has(provider_text(provider), json_literal(provider.fingerprint@)),
        has(enricher_text(enricher), json_literal(enricher.producer@)),
        has(enricher_text(enricher), json_literal(enricher.version@)),
        has(enricher_text(enricher), json_literal(enricher.config_fingerprint@)),
        has(backoff_text(backoff), decimal(backoff.initial_millis as nat)),
        has(backoff_text(backoff), decimal(backoff.maximum_millis as nat)),
{
    let languages = literals(views(settings.enabled_languages@));
    let of_settings = seq![
        ("enabled_languages"@, list_text(languages)),
        ("body_node_count_threshold"@, decimal(settings.body_node_count_threshold as nat)),
        ("max_body_chars"@, decimal(settings.max_body_chars as nat)),
        ("retention"@, json_literal(settings.retention.token())),
    ];
    every_member_is_in_an_object(of_settings, 0);
    every_member_is_in_an_object(of_settings, 1);
    every_member_is_in_an_object(of_settings, 2);
    every_member_is_in_an_object(of_settings, 3);
    assert forall|i: int| 0 <= i < settings.enabled_languages@.len() implies has(
        settings_text(settings),
        json_literal((#[trigger] settings.enabled_languages@[i])@),
    ) by {
        every_item_is_in_a_list(languages, i);
        parts_of_parts_are_parts(settings_text(settings), list_text(languages), languages[i]);
    }
    let of_provider = literals(seq![provider.label@, provider.locator@, provider.fingerprint@]);
    every_item_is_in_a_list(of_provider, 0);
    every_item_is_in_a_list(of_provider, 1);
    every_item_is_in_a_list(of_provider, 2);
    let of_enricher = seq![
        ("producer"@, json_literal(enricher.producer@)),
        ("version"@, json_literal(enricher.version@)),
        ("config_fingerprint"@, json_literal(enricher.config_fingerprint@)),
    ];
    every_member_is_in_an_object(of_enricher, 0);
    every_member_is_in_an_object(of_enricher, 1);
    every_member_is_in_an_object(of_enricher, 2);
    let of_backoff = seq![
        ("initial_millis"@, decimal(backoff.initial_millis as nat)),
        ("maximum_millis"@, decimal(backoff.maximum_millis as nat)),
    ];
    every_member_is_in_an_object(of_backoff, 0);
    every_member_is_in_an_object(of_backoff, 1);
}

/// Two configurations that trust or refresh differently are not named alike.
pub proof fn policies_have_names_of_their_own()
    ensures
        trust_name(RevisionTrust::VerifyContent) != trust_name(RevisionTrust::TrustAdvisory),
        mode_name(RefreshMode::Automatic) != mode_name(RefreshMode::PauseOnChange),
{
    reveal_strlit("verify_content");
    reveal_strlit("trust_advisory");
    reveal_strlit("automatic");
    reveal_strlit("pause_on_change");
    assert("verify_content"@[0] == 'v' && "trust_advisory"@[0] == 't');
    assert("automatic"@[0] == 'a' && "pause_on_change"@[0] == 'p');
}

} // verus!
