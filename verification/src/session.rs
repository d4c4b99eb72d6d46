//! What the program knows while it runs, and what becomes of it when the user asks for
//! something, when time passes, and when an operation in the background ends.

use vstd::prelude::*;

use crate::choice_laws::{law_chosen_interface_is_kept, leads_its_vpn, rightly_chosen};
use crate::domain::{
    is_enabled, lemma_profile_index, only_disabled, profile_index, profile_of, VpnKind, VpnProfile,
};
use crate::health::{set_enabled, with_enabled, RouteHealthOutcome};
use crate::lists::{first_index, first_that, lemma_filter_none, lemma_filter_step, lemma_is_first};
use crate::operations::{
    DnsRefreshOutcome, OperationKind, OperationResult, QueuedForegroundAction, RefreshOutcome,
    ToggleOutcome,
};
use crate::routes::{count_of, count_routes, routes_slice, same_routes};
use crate::selection::{
    any_enabled, needs_periodic_route_refresh, should_schedule_dns_refresh,
};
use crate::state::{all_disabled, disable_all_profiles, PersistedState, StateView};
use crate::text::{append_decimal, decimal, join_texts, joined, same_text};
use crate::windows::{GatewayView, InternetGateway, ManagedRoute, NetworkAdapter, RouteView};

verus! {

/// How long names are taken to mean what they meant, in milliseconds.
pub const DNS_REFRESH_INTERVAL: u64 = 300_000;

/// How long routes are taken to be in force, in milliseconds.
pub const ROUTE_HEALTH_INTERVAL: u64 = 5_000;

/// How long interfaces are taken to be what they were, in milliseconds.
pub const ENDPOINT_REFRESH_INTERVAL: u64 = 60_000;

/// What the user is told.
#[derive(Debug, PartialEq, Eq)]
pub enum Banner {
    Info(String),
    Success(String),
    Error(String),
}

/// What a `Banner` stands for.
#[verifier::ext_equal]
pub ghost enum BannerView {
    Info(Seq<char>),
    Success(Seq<char>),
    Error(Seq<char>),
}

impl View for Banner {
    type V = BannerView;

    open spec fn view(&self) -> BannerView {
        match self {
            Banner::Info(message) => BannerView::Info(message@),
            Banner::Success(message) => BannerView::Success(message@),
            Banner::Error(message) => BannerView::Error(message@),
        }
    }
}

/// What has to be saved, if anything, and after what: that decides what is said where
/// saving fails.
#[derive(Debug, PartialEq, Eq)]
pub enum SaveRequest {
    Nothing,
    Quiet(PersistedState),
    AfterToggle(PersistedState),
    AfterDnsRefresh(PersistedState),
}

/// What a `SaveRequest` stands for.
#[verifier::ext_equal]
pub ghost enum SaveView {
    Nothing,
    Quiet(StateView),
    AfterToggle(StateView),
    AfterDnsRefresh(StateView),
}

impl View for SaveRequest {
    type V = SaveView;

    open spec fn view(&self) -> SaveView {
        match self {
            SaveRequest::Nothing => SaveView::Nothing,
            SaveRequest::Quiet(state) => SaveView::Quiet(state.deep_view()),
            SaveRequest::AfterToggle(state) => SaveView::AfterToggle(state.deep_view()),
            SaveRequest::AfterDnsRefresh(state) => SaveView::AfterDnsRefresh(state.deep_view()),
        }
    }
}

/// What the program knows while it runs. Times are milliseconds since it started.
#[derive(Debug, PartialEq, Eq)]
pub struct Session {
    pub state: PersistedState,
    pub adapters: Vec<NetworkAdapter>,
    pub internet_gateway: Option<InternetGateway>,
    pub banner: Banner,
    pub enable_error_dialog: Option<String>,
    pub next_dns_refresh_at: u64,
    pub next_route_health_at: u64,
    pub next_endpoint_refresh_at: u64,
    pub pending_operation: Option<OperationKind>,
    pub queued_foreground_action: Option<QueuedForegroundAction>,
}

/// What a `Session` stands for.
#[verifier::ext_equal]
pub ghost struct SessionView {
    pub profiles: Seq<VpnProfile>,
    pub routes: Seq<RouteView>,
    pub adapters: Seq<NetworkAdapter>,
    pub gateway: Option<GatewayView>,
    pub banner: BannerView,
    pub dialog: Option<Seq<char>>,
    pub next_dns_refresh_at: int,
    pub next_route_health_at: int,
    pub next_endpoint_refresh_at: int,
    pub pending: Option<OperationKind>,
    pub queued: Option<QueuedForegroundAction>,
}

impl View for Session {
    type V = SessionView;

    open spec fn view(&self) -> SessionView {
        SessionView {
            profiles: self.state.config.profiles@,
            routes: self.state.managed_routes.deep_view(),
            adapters: self.adapters@,
            gateway: self.internet_gateway.deep_view(),
            banner: self.banner@,
            dialog: self.enable_error_dialog.deep_view(),
            next_dns_refresh_at: self.next_dns_refresh_at as int,
            next_route_health_at: self.next_route_health_at as int,
            next_endpoint_refresh_at: self.next_endpoint_refresh_at as int,
            pending: self.pending_operation,
            queued: self.queued_foreground_action,
        }
    }
}

/// Everything that is planned from now on can be expressed.
pub open spec fn in_time(now: u64) -> bool {
    now + DNS_REFRESH_INTERVAL <= u64::MAX
}

/// The profiles with the one of the VPN enabled exactly where the VPN has routes.
pub open spec fn synced_for(
    profiles: Seq<VpnProfile>,
    routes: Seq<RouteView>,
    vpn: VpnKind,
) -> Seq<VpnProfile> {
    with_enabled(profiles, vpn, count_of(routes, vpn) > 0)
}

/// The profiles, each enabled exactly where its VPN has routes.
pub open spec fn synced(profiles: Seq<VpnProfile>, routes: Seq<RouteView>) -> Seq<VpnProfile> {
    synced_for(
        synced_for(synced_for(profiles, routes, VpnKind::FortiClient), routes, VpnKind::F5),
        routes,
        VpnKind::Ivanti,
    )
}

/// The interface belongs to the VPN.
pub open spec fn belongs_to(vpn: VpnKind) -> spec_fn(NetworkAdapter) -> bool {
    |adapter: NetworkAdapter| adapter.deep_view().matches(vpn)
}

/// The interface belongs to the VPN and is connected.
pub open spec fn connected_of(vpn: VpnKind) -> spec_fn(NetworkAdapter) -> bool {
    |adapter: NetworkAdapter| adapter.deep_view().matches(vpn) && adapter.deep_view().is_up()
}

/// The interface belongs to the VPN and has the description.
pub open spec fn described(vpn: VpnKind, description: Seq<char>) -> spec_fn(NetworkAdapter) -> bool {
    |adapter: NetworkAdapter|
        adapter.deep_view().matches(vpn) && adapter.description@ == description
}

/// The description of the interface that a profile is to use: the only connected one of
/// the VPN, else the one that has been chosen if it is still there, else the first one.
pub open spec fn selected_description(
    profile: VpnProfile,
    vpn: VpnKind,
    adapters: Seq<NetworkAdapter>,
) -> Option<String> {
    let connected = adapters.filter(connected_of(vpn));
    if connected.len() == 1 {
        Some(connected[0].description)
    } else if profile.adapter_description is Some && first_that(
        adapters,
        described(vpn, profile.adapter_description->0@),
    ) is Some {
        profile.adapter_description
    } else {
        match first_that(adapters, belongs_to(vpn)) {
            Some(adapter) => Some(adapter.description),
            None => None,
        }
    }
}

/// The profiles with an interface selected for the one of the VPN, unless it is
/// enabled.
pub open spec fn auto_selected_for(
    profiles: Seq<VpnProfile>,
    adapters: Seq<NetworkAdapter>,
    vpn: VpnKind,
) -> Seq<VpnProfile> {
    match profile_of(profiles, vpn) {
        Some(profile) => if profile.enabled {
            profiles
        } else {
            profiles.update(
                profile_index(profiles, vpn),
                VpnProfile {
                    adapter_description: selected_description(profile, vpn, adapters),
                    ..profile
                },
            )
        },
        None => profiles,
    }
}

/// The profiles with an interface selected for each that is not enabled.
pub open spec fn auto_selected(profiles: Seq<VpnProfile>, adapters: Seq<NetworkAdapter>) -> Seq<
    VpnProfile,
> {
    auto_selected_for(
        auto_selected_for(
            auto_selected_for(profiles, adapters, VpnKind::FortiClient),
            adapters,
            VpnKind::F5,
        ),
        adapters,
        VpnKind::Ivanti,
    )
}

/// The warnings on lines of their own; nothing where there are none.
pub open spec fn warning_lines(warnings: Seq<Seq<char>>) -> Seq<char> {
    if warnings.len() == 0 {
        Seq::empty()
    } else {
        "\n"@ + joined(warnings, "\n"@)
    }
}

/// What the user is told of interfaces that were looked for and found.
pub open spec fn refresh_banner(outcome: RefreshOutcome, found: nat) -> BannerView {
    match (outcome.route_notice, outcome.gateway_notice, outcome.dns_notice) {
        (_, Err(reason), _) => BannerView::Error(
            "VPN 介面已重新偵測，但無法偵測一般網路閘道："@ + reason@,
        ),
        (_, _, Err(reason)) => BannerView::Error(
            "VPN 介面已重新偵測，但無法清除先前殘留的 DNS 分流："@ + reason@,
        ),
        (Ok(reconciled), _, _) => if reconciled.removed > 0 {
            BannerView::Info(
                "已重新偵測介面；另清除 "@ + decimal(reconciled.removed as nat)
                    + " 條 VPN 已斷線後殘留的 ActiveStore 路由，開關狀態已同步。"@,
            )
        } else {
            BannerView::Info(
                "已重新偵測到 "@ + decimal(found) + " 個可能的 VPN 網路介面。"@,
            )
        },
        (Err(reason), _, _) => BannerView::Error(reason@),
    }
}

/// The profiles with those of the VPNs disabled.
pub open spec fn without_vpns(profiles: Seq<VpnProfile>, vpns: Seq<VpnKind>) -> Seq<VpnProfile>
    decreases vpns.len(),
{
    if vpns.len() == 0 {
        profiles
    } else {
        with_enabled(without_vpns(profiles, vpns.drop_last()), vpns.last(), false)
    }
}

impl SessionView {
    /// The program starts: every profile is disabled, so that looking for stale routes
    /// removes whatever an earlier run has left.
    pub open spec fn opened(
        profiles: Seq<VpnProfile>,
        routes: Seq<RouteView>,
        now: u64,
    ) -> SessionView {
        SessionView {
            profiles: all_disabled(profiles),
            routes,
            adapters: Seq::empty(),
            gateway: None,
            banner: BannerView::Info(
                "請填入 CIDR、網域或網址；切換開關時會立即驗證並套用。"@,
            ),
            dialog: None,
            next_dns_refresh_at: now as int,
            next_route_health_at: now as int,
            next_endpoint_refresh_at: now as int,
            pending: None,
            queued: None,
        }
    }

    /// An operation starts, unless another one is running.
    pub open spec fn started(self, kind: OperationKind) -> SessionView {
        if self.pending is Some {
            self
        } else {
            SessionView {
                banner: if kind.is_foreground() {
                    BannerView::Info(kind.progress())
                } else {
                    self.banner
                },
                pending: Some(kind),
                ..self
            }
        }
    }

    /// The user waits for something.
    pub open spec fn is_busy(self) -> bool {
        self.queued is Some || (self.pending matches Some(kind) && kind.is_foreground())
    }

    /// The user has asked for something while an operation runs: it waits for an
    /// operation that the user did not ask for, and is dropped otherwise.
    pub open spec fn asked_while_running(
        self,
        action: QueuedForegroundAction,
        kind: OperationKind,
    ) -> SessionView {
        if self.pending matches Some(running) && running.is_foreground() {
            self
        } else {
            SessionView {
                queued: Some(action),
                banner: BannerView::Info(kind.progress()),
                ..self
            }
        }
    }

    /// The user has asked to look for interfaces.
    pub open spec fn asked_to_refresh(self, now: u64) -> SessionView {
        if self.pending is Some {
            self.asked_while_running(
                QueuedForegroundAction::RefreshAdapters,
                OperationKind::RefreshAdapters,
            )
        } else {
            SessionView {
                next_dns_refresh_at: now as int,
                next_endpoint_refresh_at: now as int,
                ..self
            }.started(OperationKind::RefreshAdapters)
        }
    }

    /// The user has asked to switch a profile.
    pub open spec fn asked_to_switch(self, vpn: VpnKind, enabled: bool) -> SessionView {
        if self.pending is Some {
            self.asked_while_running(
                QueuedForegroundAction::ToggleProfile { vpn, enabled },
                OperationKind::ToggleProfile { vpn, enabled },
            )
        } else if is_enabled(self.profiles, vpn) == enabled {
            self
        } else {
            self.started(OperationKind::ToggleProfile { vpn, enabled })
        }
    }

    /// What has been waiting gets its turn.
    pub open spec fn queued_started(self, now: u64) -> SessionView {
        if self.pending is Some {
            self
        } else {
            let rest = SessionView { queued: None, ..self };
            match self.queued {
                None => self,
                Some(QueuedForegroundAction::RefreshAdapters) => rest.asked_to_refresh(now),
                Some(QueuedForegroundAction::ToggleProfile { vpn, enabled }) =>
                    rest.asked_to_switch(vpn, enabled),
            }
        }
    }

    /// It is time to check the routes in force.
    pub open spec fn health_due(self, now: u64) -> bool {
        self.pending is None && now >= self.next_route_health_at && (any_enabled(self.profiles)
            || self.routes.len() > 0)
    }

    /// It is time to look for interfaces again.
    pub open spec fn endpoints_due(self, now: u64) -> bool {
        now >= self.next_endpoint_refresh_at
    }

    /// The routes in force are checked if it is time.
    pub open spec fn health_started(self, now: u64) -> SessionView {
        if !self.health_due(now) {
            self
        } else {
            SessionView {
                next_route_health_at: now + ROUTE_HEALTH_INTERVAL,
                next_endpoint_refresh_at: if self.endpoints_due(now) {
                    now + ENDPOINT_REFRESH_INTERVAL
                } else {
                    self.next_endpoint_refresh_at
                },
                ..self
            }.started(OperationKind::RouteHealth)
        }
    }

    /// It is time to resolve the names again.
    pub open spec fn names_due(self, now: u64) -> bool {
        self.pending is None && now >= self.next_dns_refresh_at
            && crate::domain::names_enabled_domain(self.profiles)
    }

    /// The names are resolved again if it is time.
    pub open spec fn names_started(self, now: u64) -> SessionView {
        if !self.names_due(now) {
            self
        } else {
            SessionView { next_dns_refresh_at: now + DNS_REFRESH_INTERVAL, ..self }.started(
                OperationKind::RefreshDns,
            )
        }
    }

    /// Interfaces and stale routes have been looked for.
    pub open spec fn refreshed(self, outcome: RefreshOutcome) -> SessionView {
        let reconciled = match outcome.route_notice {
            Ok(found) => SessionView {
                routes: found.routes.deep_view(),
                profiles: synced(self.profiles, found.routes.deep_view()),
                ..self
            },
            Err(_) => self,
        };
        let located = match outcome.gateway_notice {
            Ok(gateway) => SessionView { gateway: gateway.deep_view(), ..reconciled },
            Err(_) => reconciled,
        };
        match outcome.adapter_notice {
            Ok(adapters) => SessionView {
                adapters: adapters@,
                profiles: auto_selected(located.profiles, adapters@),
                banner: refresh_banner(outcome, adapters@.len()),
                ..located
            },
            Err(reason) => SessionView { banner: BannerView::Error(reason@), ..located },
        }
    }

    /// A profile has been switched, or not.
    pub open spec fn toggled(self, outcome: ToggleOutcome, now: u64) -> SessionView {
        match outcome {
            ToggleOutcome::Applied { vpn, enabled, config, routes, warnings } => SessionView {
                profiles: config.profiles@,
                routes: routes.deep_view(),
                next_dns_refresh_at: now + DNS_REFRESH_INTERVAL,
                next_route_health_at: now + ROUTE_HEALTH_INTERVAL,
                next_endpoint_refresh_at: now + ENDPOINT_REFRESH_INTERVAL,
                banner: BannerView::Success(
                    (if enabled {
                        vpn.text() + " 分流已開啟，目前管理 "@ + decimal(
                            count_of(routes.deep_view(), vpn),
                        ) + " 條路由。"@
                    } else {
                        vpn.text() + " 分流已關閉，本程式建立的相關路由已移除。"@
                    }) + warning_lines(warnings.deep_view()),
                ),
                ..self
            },
            ToggleOutcome::Failed { attempted_enabled, error } => SessionView {
                banner: BannerView::Error(error@),
                dialog: if attempted_enabled {
                    Some(error@)
                } else {
                    self.dialog
                },
                ..self
            },
        }
    }

    /// An operation has ended without a result.
    pub open spec fn failed(self, kind: OperationKind, error: Seq<char>) -> SessionView {
        SessionView {
            banner: BannerView::Error(error),
            dialog: if kind matches OperationKind::ToggleProfile { enabled, .. } && enabled {
                Some(error)
            } else {
                self.dialog
            },
            ..self
        }
    }

    /// The names have been resolved again.
    pub open spec fn names_refreshed(self, outcome: DnsRefreshOutcome) -> SessionView {
        match outcome {
            DnsRefreshOutcome::Unchanged => self,
            DnsRefreshOutcome::Updated { routes, warnings } => SessionView {
                routes: routes.deep_view(),
                banner: BannerView::Success(
                    "網域已重新解析並更新，目前管理 "@ + decimal(routes.deep_view().len())
                        + " 條路由。"@ + warning_lines(warnings.deep_view()),
                ),
                ..self
            },
            DnsRefreshOutcome::Failed(reason) => SessionView {
                banner: BannerView::Error(reason@),
                ..self
            },
        }
    }

    /// The routes in force have been checked. What the user has edited meanwhile stays;
    /// only the profiles that cannot go on are disabled.
    pub open spec fn health_checked(self, outcome: RouteHealthOutcome, now: u64) -> SessionView {
        match outcome {
            RouteHealthOutcome::Healthy => self,
            RouteHealthOutcome::Updated {
                config,
                routes,
                adapters,
                internet_gateway,
                repaired,
                disabled_vpns,
                warnings,
            } => SessionView {
                profiles: without_vpns(self.profiles, disabled_vpns@),
                routes: routes.deep_view(),
                adapters: adapters@,
                gateway: match internet_gateway {
                    Some(gateway) => Some((*gateway).deep_view()),
                    None => None,
                },
                banner: if disabled_vpns@.len() > 0 {
                    BannerView::Info(joined(warnings.deep_view(), "\n"@))
                } else if repaired {
                    BannerView::Success(
                        "偵測到 VPN 或網路介面改寫路由，已自動修復 "@ + decimal(
                            routes.deep_view().len(),
                        ) + " 條管理路由。"@,
                    )
                } else {
                    self.banner
                },
                ..self
            },
            RouteHealthOutcome::Failed(reason) => SessionView {
                next_endpoint_refresh_at: now + ROUTE_HEALTH_INTERVAL,
                banner: BannerView::Error(reason@),
                ..self
            },
        }
    }

    /// The state has to be saved after the routes in force have been checked.
    pub open spec fn changed_by(self, outcome: RouteHealthOutcome) -> bool {
        outcome matches RouteHealthOutcome::Updated { routes, disabled_vpns, .. } && (self.routes
            != routes.deep_view() || without_vpns(self.profiles, disabled_vpns@) != self.profiles)
    }

    /// The operation has ended like this.
    pub open spec fn with_result(self, result: OperationResult, now: u64) -> SessionView {
        match result {
            OperationResult::Refresh(outcome) => self.refreshed(outcome),
            OperationResult::Toggle(outcome) => self.toggled(outcome, now),
            OperationResult::RefreshDns(outcome) => self.names_refreshed(outcome),
            OperationResult::RouteHealth(outcome) => self.health_checked(outcome, now),
        }
    }

    /// What has to be saved once the operation has ended like this. After looking for
    /// interfaces that is the state before an interface is selected for any profile.
    pub open spec fn save_after(self, result: OperationResult) -> SaveView {
        match result {
            OperationResult::Refresh(outcome) => match outcome.route_notice {
                Ok(found) => if found.removed > 0 {
                    SaveView::Quiet(
                        StateView {
                            profiles: synced(self.profiles, found.routes.deep_view()),
                            routes: found.routes.deep_view(),
                        },
                    )
                } else {
                    SaveView::Nothing
                },
                Err(_) => SaveView::Nothing,
            },
            OperationResult::Toggle(outcome) => match outcome {
                ToggleOutcome::Applied { config, routes, .. } => SaveView::AfterToggle(
                    StateView { profiles: config.profiles@, routes: routes.deep_view() },
                ),
                ToggleOutcome::Failed { .. } => SaveView::Nothing,
            },
            OperationResult::RefreshDns(outcome) => match outcome {
                DnsRefreshOutcome::Updated { routes, .. } => SaveView::AfterDnsRefresh(
                    StateView { profiles: self.profiles, routes: routes.deep_view() },
                ),
                _ => SaveView::Nothing,
            },
            OperationResult::RouteHealth(outcome) => match outcome {
                RouteHealthOutcome::Updated { routes, disabled_vpns, .. } => if self.changed_by(
                    outcome,
                ) {
                    SaveView::Quiet(
                        StateView {
                            profiles: without_vpns(self.profiles, disabled_vpns@),
                            routes: routes.deep_view(),
                        },
                    )
                } else {
                    SaveView::Nothing
                },
                _ => SaveView::Nothing,
            },
        }
    }

    /// Saving the state has failed.
    pub open spec fn save_failed(self, request: SaveView, reason: Seq<char>) -> SessionView {
        match request {
            SaveView::Nothing | SaveView::Quiet(_) => self,
            SaveView::AfterToggle(_) => SessionView {
                banner: BannerView::Error("路由已套用，但設定保存失敗："@ + reason),
                ..self
            },
            SaveView::AfterDnsRefresh(_) => SessionView {
                banner: BannerView::Error("DNS 路由已更新，但設定保存失敗："@ + reason),
                ..self
            },
        }
    }

    /// How long nothing is due, where something will be: the next check of the routes,
    /// and where names are listed the next time to resolve them.
    pub open spec fn quiet_for(self, now: u64) -> Option<int> {
        if !any_enabled(self.profiles) && self.routes.len() == 0 {
            None
        } else {
            let health = if self.next_route_health_at > now {
                self.next_route_health_at - now
            } else {
                0
            };
            let names = if self.next_dns_refresh_at > now {
                self.next_dns_refresh_at - now
            } else {
                0
            };
            if crate::domain::names_enabled_domain(self.profiles) && names < health {
                Some(names)
            } else {
                Some(health)
            }
        }
    }
}

/// The position of the first interface of the VPN.
fn find_belonging(adapters: &Vec<NetworkAdapter>, vpn: VpnKind) -> (index: usize)
    ensures
        index == first_index(adapters@, belongs_to(vpn)),
        index <= adapters.len(),
{
    let ghost condition = belongs_to(vpn);
    let mut index: usize = 0;
    while index < adapters.len() && !adapters[index].matches(vpn)
        invariant
            condition == belongs_to(vpn),
            index <= adapters.len(),
            forall|i: int| 0 <= i < index ==> !condition(#[trigger] adapters@[i]),
        decreases adapters.len() - index,
    {
        index = index + 1;
    }
    proof {
        lemma_is_first(adapters@, condition, index as int);
    }
    index
}

/// The position of the first interface of the VPN with the description.
pub fn find_described(adapters: &Vec<NetworkAdapter>, vpn: VpnKind, description: &str) -> (index: usize)
    ensures
        index == first_index(adapters@, described(vpn, description@)),
        index <= adapters.len(),
{
    let ghost condition = described(vpn, description@);
    let mut index: usize = 0;
    while index < adapters.len() && !(adapters[index].matches(vpn) && same_text(
        adapters[index].description.as_str(),
        description,
    ))
        invariant
            condition == described(vpn, description@),
            index <= adapters.len(),
            forall|i: int| 0 <= i < index ==> !condition(#[trigger] adapters@[i]),
        decreases adapters.len() - index,
    {
        index = index + 1;
    }
    proof {
        lemma_is_first(adapters@, condition, index as int);
    }
    index
}

/// The positions of the connected interfaces of the VPN.
pub fn find_connected(adapters: &Vec<NetworkAdapter>, vpn: VpnKind) -> (positions: Vec<usize>)
    ensures
        positions.len() == adapters@.filter(connected_of(vpn)).len(),
        forall|k: int|
            0 <= k < positions.len() ==> (#[trigger] positions@[k]) < adapters.len()
                && adapters@[positions@[k] as int] == adapters@.filter(connected_of(vpn))[k],
{
    let ghost condition = connected_of(vpn);
    let mut positions: Vec<usize> = Vec::new();
    proof {
        lemma_filter_none(adapters@, condition);
    }
    for i in 0..adapters.len()
        invariant
            condition == connected_of(vpn),
            positions.len() == adapters@.take(i as int).filter(condition).len(),
            forall|k: int|
                0 <= k < positions.len() ==> (#[trigger] positions@[k]) < adapters.len()
                    && adapters@[positions@[k] as int] == adapters@.take(i as int).filter(
                    condition,
                )[k],
    {
        proof {
            lemma_filter_step(adapters@, i as int, condition);
        }
        if adapters[i].matches(vpn) && adapters[i].is_up() {
            positions.push(i);
        }
    }
    assert(adapters@.take(adapters.len() as int) =~= adapters@);
    positions
}

/// The description of the interface that a profile is to use.
fn select_description(profile: &VpnProfile, vpn: VpnKind, adapters: &Vec<NetworkAdapter>) -> (
    description: Option<String>)
    ensures
        description == selected_description(*profile, vpn, adapters@),
{
    let connected: Vec<usize> = find_connected(adapters, vpn);
    if connected.len() == 1 {
        let at: usize = connected[0];
        assert(adapters@[at as int] == adapters@.filter(connected_of(vpn))[0]);
        return Some(adapters[at].description.clone());
    }
    if let Some(chosen) = &profile.adapter_description {
        if find_described(adapters, vpn, chosen.as_str()) < adapters.len() {
            return Some(chosen.clone());
        }
    }
    let first: usize = find_belonging(adapters, vpn);
    if first < adapters.len() {
        Some(adapters[first].description.clone())
    } else {
        None
    }
}

/// The warnings on lines of their own; nothing where there are none.
fn lines_of(warnings: &Vec<String>) -> (lines: String)
    ensures
        lines@ == warning_lines(warnings.deep_view()),
{
    if warnings.len() == 0 {
        String::new()
    } else {
        let mut lines: String = "\n".to_owned();
        lines.append(join_texts(warnings, "\n").as_str());
        lines
    }
}

/// The text, the number in decimal, and the other text.
fn with_number(before: &str, number: usize, after: &str) -> (message: String)
    ensures
        message@ == before@ + decimal(number as nat) + after@,
{
    let mut message: String = before.to_owned();
    append_decimal(&mut message, number as u64);
    message.append(after);
    message
}

impl Session {
    /// The program starts.
    pub fn new(state: PersistedState, now: u64) -> (session: Session)
        ensures
            session@ == SessionView::opened(
                state.config.profiles@,
                state.managed_routes.deep_view(),
                now,
            ),
    {
        let mut state: PersistedState = state;
        disable_all_profiles(&mut state);
        Session {
            state,
            adapters: Vec::new(),
            internet_gateway: None,
            banner: Banner::Info(
                "請填入 CIDR、網域或網址；切換開關時會立即驗證並套用。".to_owned(),
            ),
            enable_error_dialog: None,
            next_dns_refresh_at: now,
            next_route_health_at: now,
            next_endpoint_refresh_at: now,
            pending_operation: None,
            queued_foreground_action: None,
        }
    }

    /// Starts an operation, unless another one is running.
    pub fn start_operation(&mut self, kind: OperationKind) -> (starts: bool)
        ensures
            final(self)@ == old(self)@.started(kind),
            starts == (old(self)@.pending is None),
    {
        if self.pending_operation.is_some() {
            return false;
        }
        if kind.blocks_user_interface() {
            self.banner = Banner::Info(kind.progress_message());
        }
        self.pending_operation = Some(kind);
        true
    }

    /// Whether the user waits for something.
    pub fn user_interface_busy(&self) -> (busy: bool)
        ensures
            busy == self@.is_busy(),
    {
        self.queued_foreground_action.is_some() || match self.pending_operation {
            Some(kind) => kind.blocks_user_interface(),
            None => false,
        }
    }

    /// The user asks to look for interfaces. Tells whether that starts now.
    pub fn refresh_adapters(&mut self, now: u64) -> (starts: bool)
        ensures
            final(self)@ == old(self)@.asked_to_refresh(now),
            starts == (old(self)@.pending is None),
    {
        if let Some(running) = self.pending_operation {
            if !running.blocks_user_interface() {
                self.queued_foreground_action = Some(QueuedForegroundAction::RefreshAdapters);
                self.banner = Banner::Info(OperationKind::RefreshAdapters.progress_message());
            }
            return false;
        }
        self.next_dns_refresh_at = now;
        self.next_endpoint_refresh_at = now;
        self.start_operation(OperationKind::RefreshAdapters)
    }

    /// The user asks to switch a profile. Tells whether that starts now.
    pub fn set_profile_enabled(&mut self, vpn: VpnKind, enabled: bool) -> (starts: bool)
        ensures
            final(self)@ == old(self)@.asked_to_switch(vpn, enabled),
            starts == (old(self)@.pending is None && is_enabled(old(self)@.profiles, vpn)
                != enabled),
    {
        if let Some(running) = self.pending_operation {
            if !running.blocks_user_interface() {
                self.queued_foreground_action = Some(
                    QueuedForegroundAction::ToggleProfile { vpn, enabled },
                );
                self.banner = Banner::Info(
                    OperationKind::ToggleProfile { vpn, enabled }.progress_message(),
                );
            }
            return false;
        }
        if self.state.config.is_profile_enabled(vpn) == enabled {
            return false;
        }
        self.start_operation(OperationKind::ToggleProfile { vpn, enabled })
    }

    /// Lets what has been waiting have its turn. Tells whether it starts.
    pub fn start_queued_foreground_action(&mut self, now: u64) -> (starts: bool)
        ensures
            final(self)@ == old(self)@.queued_started(now),
            starts == (old(self)@.pending is None && final(self)@.pending is Some),
    {
        if self.pending_operation.is_some() {
            return false;
        }
        match self.queued_foreground_action {
            None => false,
            Some(QueuedForegroundAction::RefreshAdapters) => {
                self.queued_foreground_action = None;
                self.refresh_adapters(now)
            },
            Some(QueuedForegroundAction::ToggleProfile { vpn, enabled }) => {
                self.queued_foreground_action = None;
                self.set_profile_enabled(vpn, enabled)
            },
        }
    }

    /// Checks the routes in force if it is time. Tells whether that starts, and whether
    /// interfaces have to be looked for too.
    pub fn refresh_routes_if_due(&mut self, now: u64) -> (starts: Option<bool>)
        requires
            in_time(now),
        ensures
            final(self)@ == old(self)@.health_started(now),
            starts == if old(self)@.health_due(now) {
                Some(old(self)@.endpoints_due(now))
            } else {
                None
            },
    {
        if self.pending_operation.is_some() || now < self.next_route_health_at || (
        !needs_periodic_route_refresh(&self.state.config) && self.state.managed_routes.len()
            == 0) {
            return None;
        }
        self.next_route_health_at = now + ROUTE_HEALTH_INTERVAL;
        let refresh_endpoints: bool = now >= self.next_endpoint_refresh_at;
        if refresh_endpoints {
            self.next_endpoint_refresh_at = now + ENDPOINT_REFRESH_INTERVAL;
        }
        self.start_operation(OperationKind::RouteHealth);
        Some(refresh_endpoints)
    }

    /// Resolves the names again if it is time. Tells whether that starts.
    pub fn refresh_dns_routes_if_due(&mut self, now: u64) -> (starts: bool)
        requires
            in_time(now),
        ensures
            final(self)@ == old(self)@.names_started(now),
            starts == old(self)@.names_due(now),
    {
        if self.pending_operation.is_some() || now < self.next_dns_refresh_at
            || !should_schedule_dns_refresh(&self.state.config) {
            return false;
        }
        self.next_dns_refresh_at = now + DNS_REFRESH_INTERVAL;
        self.start_operation(OperationKind::RefreshDns)
    }

    /// Enables each profile exactly where its VPN has routes.
    pub fn sync_enabled_profiles_to_routes(&mut self)
        ensures
            final(self)@ == (SessionView {
                profiles: synced(old(self)@.profiles, old(self)@.routes),
                ..old(self)@
            }),
    {
        let routes: &[ManagedRoute] = routes_slice(&self.state.managed_routes);
        let forti: bool = count_routes(routes, VpnKind::FortiClient) > 0;
        let f5: bool = count_routes(routes, VpnKind::F5) > 0;
        let ivanti: bool = count_routes(routes, VpnKind::Ivanti) > 0;
        set_enabled(&mut self.state.config, VpnKind::FortiClient, forti);
        set_enabled(&mut self.state.config, VpnKind::F5, f5);
        set_enabled(&mut self.state.config, VpnKind::Ivanti, ivanti);
    }

    /// Selects an interface for the profile of the VPN, unless it is enabled.
    fn auto_select_adapter(&mut self, vpn: VpnKind)
        ensures
            final(self)@ == (SessionView {
                profiles: auto_selected_for(old(self)@.profiles, old(self)@.adapters, vpn),
                ..old(self)@
            }),
    {
        let ghost before = self.state.config.profiles@;
        let ghost adapters = self.adapters@;
        proof {
            lemma_profile_index(before, vpn);
        }
        if let Some(profile) = self.state.config.profile_mut(vpn) {
            if !profile.enabled {
                profile.adapter_description = select_description(profile, vpn, &self.adapters);
            }
        }
        assert(self.state.config.profiles@ =~= auto_selected_for(before, adapters, vpn));
    }

    /// Selects an interface for each profile that is not enabled.
    pub fn auto_select_adapters(&mut self)
        ensures
            final(self)@ == (SessionView {
                profiles: auto_selected(old(self)@.profiles, old(self)@.adapters),
                ..old(self)@
            }),
            forall|p: int|
                0 <= p < old(self)@.profiles.len() && leads_its_vpn(old(self)@.profiles, p)
                    && !old(self)@.profiles[p].enabled ==> rightly_chosen(
                    old(self)@.profiles[p].adapter_description,
                    (#[trigger] final(self)@.profiles[p]).adapter_description,
                    old(self)@.profiles[p].vpn,
                    old(self)@.adapters,
                ),
    {
        proof {
            let profiles = self@.profiles;
            let adapters = self@.adapters;
            assert forall|p: int|
                0 <= p < profiles.len() && leads_its_vpn(profiles, p)
                    && !profiles[p].enabled implies rightly_chosen(
                profiles[p].adapter_description,
                (#[trigger] auto_selected(profiles, adapters)[p]).adapter_description,
                profiles[p].vpn,
                adapters,
            ) by {
                law_chosen_interface_is_kept(profiles, adapters, p);
            }
        }
        self.auto_select_adapter(VpnKind::FortiClient);
        self.auto_select_adapter(VpnKind::F5);
        self.auto_select_adapter(VpnKind::Ivanti);
    }

    /// Interfaces and stale routes have been looked for.
    pub fn finish_refresh(&mut self, outcome: RefreshOutcome) -> (request: SaveRequest)
        ensures
            final(self)@ == old(self)@.refreshed(outcome),
            request@ == old(self)@.save_after(OperationResult::Refresh(outcome)),
    {
        let RefreshOutcome { route_notice, dns_notice, gateway_notice, adapter_notice } = outcome;
        let mut request: SaveRequest = SaveRequest::Nothing;
        let reconciled: Result<usize, String> = match route_notice {
            Ok(found) => {
                self.state.managed_routes = found.routes;
                self.sync_enabled_profiles_to_routes();
                if found.removed > 0 {
                    request = SaveRequest::Quiet(self.state.clone());
                }
                Ok(found.removed)
            },
            Err(reason) => Err(reason),
        };
        let located: Result<(), String> = match gateway_notice {
            Ok(gateway) => {
                self.internet_gateway = gateway;
                Ok(())
            },
            Err(reason) => Err(reason),
        };
        match adapter_notice {
            Err(reason) => {
                self.banner = Banner::Error(reason);
            },
            Ok(adapters) => {
                let found: usize = adapters.len();
                self.adapters = adapters;
                self.auto_select_adapters();
                self.banner = match (reconciled, located, dns_notice) {
                    (_, Err(reason), _) => {
                        let mut message: String =
                            "VPN 介面已重新偵測，但無法偵測一般網路閘道：".to_owned();
                        message.append(reason.as_str());
                        Banner::Error(message)
                    },
                    (_, Ok(_), Err(reason)) => {
                        let mut message: String =
                            "VPN 介面已重新偵測，但無法清除先前殘留的 DNS 分流：".to_owned();
                        message.append(reason.as_str());
                        Banner::Error(message)
                    },
                    (Ok(removed), Ok(_), Ok(_)) => {
                        if removed > 0 {
                            Banner::Info(
                                with_number(
                                    "已重新偵測介面；另清除 ",
                                    removed,
                                    " 條 VPN 已斷線後殘留的 ActiveStore 路由，開關狀態已同步。",
                                ),
                            )
                        } else {
                            Banner::Info(
                                with_number(
                                    "已重新偵測到 ",
                                    found,
                                    " 個可能的 VPN 網路介面。",
                                ),
                            )
                        }
                    },
                    (Err(reason), Ok(_), Ok(_)) => Banner::Error(reason),
                };
            },
        }
        request
    }

    /// A profile has been switched, or not.
    pub fn finish_toggle(&mut self, outcome: ToggleOutcome, now: u64) -> (request: SaveRequest)
        requires
            in_time(now),
        ensures
            final(self)@ == old(self)@.toggled(outcome, now),
            request@ == old(self)@.save_after(OperationResult::Toggle(outcome)),
            outcome is Applied ==> {
                &&& final(self)@.profiles == outcome->config.profiles@
                &&& final(self)@.routes == outcome->routes.deep_view()
                &&& request@ matches SaveView::AfterToggle(state) && state.profiles
                    == outcome->config.profiles@ && state.routes == outcome->routes.deep_view()
            },
            outcome is Failed ==> final(self)@.profiles == old(self)@.profiles
                && final(self)@.routes == old(self)@.routes && request@ is Nothing,
    {
        match outcome {
            ToggleOutcome::Applied { vpn, enabled, config, routes, warnings } => {
                self.state.config = config;
                self.state.managed_routes = routes;
                self.next_dns_refresh_at = now + DNS_REFRESH_INTERVAL;
                self.next_route_health_at = now + ROUTE_HEALTH_INTERVAL;
                self.next_endpoint_refresh_at = now + ENDPOINT_REFRESH_INTERVAL;
                let mut message: String = vpn.name().to_owned();
                if enabled {
                    let count: usize = count_routes(
                        routes_slice(&self.state.managed_routes),
                        vpn,
                    );
                    message.append(" 分流已開啟，目前管理 ");
                    append_decimal(&mut message, count as u64);
                    message.append(" 條路由。");
                } else {
                    message.append(" 分流已關閉，本程式建立的相關路由已移除。");
                }
                message.append(lines_of(&warnings).as_str());
                self.banner = Banner::Success(message);
                SaveRequest::AfterToggle(self.state.clone())
            },
            ToggleOutcome::Failed { attempted_enabled, error } => {
                if attempted_enabled {
                    self.enable_error_dialog = Some(error.clone());
                }
                self.banner = Banner::Error(error);
                SaveRequest::Nothing
            },
        }
    }

    /// An operation has ended without a result.
    pub fn finish_unexpected_operation_failure(&mut self, operation: OperationKind, error: String)
        ensures
            final(self)@ == old(self)@.failed(operation, error@),
    {
        if let OperationKind::ToggleProfile { enabled, .. } = operation {
            if enabled {
                self.enable_error_dialog = Some(error.clone());
            }
        }
        self.banner = Banner::Error(error);
    }

    /// The names have been resolved again.
    pub fn finish_dns_refresh(&mut self, outcome: DnsRefreshOutcome) -> (request: SaveRequest)
        ensures
            final(self)@ == old(self)@.names_refreshed(outcome),
            request@ == old(self)@.save_after(OperationResult::RefreshDns(outcome)),
    {
        match outcome {
            DnsRefreshOutcome::Unchanged => SaveRequest::Nothing,
            DnsRefreshOutcome::Updated { routes, warnings } => {
                let mut message: String = with_number(
                    "網域已重新解析並更新，目前管理 ",
                    routes.len(),
                    " 條路由。",
                );
                message.append(lines_of(&warnings).as_str());
                self.state.managed_routes = routes;
                self.banner = Banner::Success(message);
                SaveRequest::AfterDnsRefresh(self.state.clone())
            },
            DnsRefreshOutcome::Failed(reason) => {
                self.banner = Banner::Error(reason);
                SaveRequest::Nothing
            },
        }
    }

    /// Disables the profiles of the VPNs, and tells whether that changed anything.
    fn disable_vpns(&mut self, vpns: &Vec<VpnKind>) -> (changed: bool)
        ensures
            final(self)@ == (SessionView {
                profiles: without_vpns(old(self)@.profiles, vpns@),
                ..old(self)@
            }),
            changed == (without_vpns(old(self)@.profiles, vpns@) != old(self)@.profiles),
    {
        let ghost whole = self@;
        let ghost before = self@.profiles;
        let mut changed: bool = false;
        for i in 0..vpns.len()
            invariant
                before == whole.profiles,
                self@ == (SessionView {
                    profiles: without_vpns(before, vpns@.take(i as int)),
                    ..whole
                }),
                only_disabled(before, self@.profiles),
                changed == (self@.profiles != before),
        {
            let vpn: VpnKind = vpns[i];
            let ghost now = self@.profiles;
            assert(vpns@.take(i + 1).drop_last() =~= vpns@.take(i as int));
            proof {
                lemma_profile_index(now, vpn);
            }
            if self.state.config.is_profile_enabled(vpn) {
                changed = true;
            }
            set_enabled(&mut self.state.config, vpn, false);
            proof {
                let after = self@.profiles;
                let at = profile_index(now, vpn);
                if is_enabled(now, vpn) {
                    assert(now[at] == before[at]);
                    assert(after[at] != before[at]);
                } else {
                    assert(after =~= now);
                }
                assert(only_disabled(before, after));
            }
        }
        assert(vpns@.take(vpns.len() as int) =~= vpns@);
        changed
    }

    /// The routes in force have been checked.
    pub fn finish_route_health(&mut self, outcome: RouteHealthOutcome, now: u64) -> (request:
        SaveRequest)
        requires
            in_time(now),
        ensures
            final(self)@ == old(self)@.health_checked(outcome, now),
            request@ == old(self)@.save_after(OperationResult::RouteHealth(outcome)),
    {
        match outcome {
            RouteHealthOutcome::Healthy => SaveRequest::Nothing,
            RouteHealthOutcome::Updated {
                config: _,
                routes,
                adapters,
                internet_gateway,
                repaired,
                disabled_vpns,
                warnings,
            } => {
                let routes_changed: bool = !same_routes(
                    routes_slice(&self.state.managed_routes),
                    routes_slice(&routes),
                );
                let profiles_changed: bool = self.disable_vpns(&disabled_vpns);
                let count: usize = routes.len();
                self.state.managed_routes = routes;
                self.adapters = adapters;
                self.internet_gateway = match internet_gateway {
                    Some(gateway) => Some(*gateway),
                    None => None,
                };
                if disabled_vpns.len() > 0 {
                    self.banner = Banner::Info(join_texts(&warnings, "\n"));
                } else if repaired {
                    self.banner = Banner::Success(
                        with_number(
                            "偵測到 VPN 或網路介面改寫路由，已自動修復 ",
                            count,
                            " 條管理路由。",
                        ),
                    );
                }
                if routes_changed || profiles_changed {
                    SaveRequest::Quiet(self.state.clone())
                } else {
                    SaveRequest::Nothing
                }
            },
            RouteHealthOutcome::Failed(reason) => {
                self.next_endpoint_refresh_at = now + ROUTE_HEALTH_INTERVAL;
                self.banner = Banner::Error(reason);
                SaveRequest::Nothing
            },
        }
    }

    /// Takes over what an operation came to. Tells what has to be saved.
    pub fn apply_operation_result(&mut self, result: OperationResult, now: u64) -> (request:
        SaveRequest)
        requires
            in_time(now),
        ensures
            final(self)@ == old(self)@.with_result(result, now),
            request@ == old(self)@.save_after(result),
    {
        match result {
            OperationResult::Refresh(outcome) => self.finish_refresh(outcome),
            OperationResult::Toggle(outcome) => self.finish_toggle(outcome, now),
            OperationResult::RefreshDns(outcome) => self.finish_dns_refresh(outcome),
            OperationResult::RouteHealth(outcome) => self.finish_route_health(outcome, now),
        }
    }

    /// The operation that was running has ended, with a result or without one. Tells
    /// what has to be saved.
    pub fn operation_ended(&mut self, result: Result<OperationResult, String>, now: u64) -> (request:
        SaveRequest)
        requires
            in_time(now),
            old(self)@.pending is Some,
        ensures
            ({
                let idle = SessionView { pending: None, ..old(self)@ };
                match result {
                    Ok(came_to) => {
                        &&& final(self)@ == idle.with_result(came_to, now)
                        &&& request@ == idle.save_after(came_to)
                    },
                    Err(reason) => {
                        &&& final(self)@ == idle.failed(old(self)@.pending->0, reason@)
                        &&& request@ == SaveView::Nothing
                    },
                }
            }),
    {
        let operation: Option<OperationKind> = self.pending_operation;
        self.pending_operation = None;
        match result {
            Ok(came_to) => self.apply_operation_result(came_to, now),
            Err(reason) => {
                if let Some(kind) = operation {
                    self.finish_unexpected_operation_failure(kind, reason);
                }
                SaveRequest::Nothing
            },
        }
    }

    /// Saving the state has failed.
    pub fn report_save_failure(&mut self, request: &SaveRequest, reason: String)
        ensures
            final(self)@ == old(self)@.save_failed(request@, reason@),
    {
        match request {
            SaveRequest::Nothing | SaveRequest::Quiet(_) => {},
            SaveRequest::AfterToggle(_) => {
                let mut message: String = "路由已套用，但設定保存失敗：".to_owned();
                message.append(reason.as_str());
                self.banner = Banner::Error(message);
            },
            SaveRequest::AfterDnsRefresh(_) => {
                let mut message: String = "DNS 路由已更新，但設定保存失敗：".to_owned();
                message.append(reason.as_str());
                self.banner = Banner::Error(message);
            },
        }
    }

    /// How long nothing is due, where something will be.
    pub fn repaint_after(&self, now: u64) -> (wait: Option<u64>)
        ensures
            match self@.quiet_for(now) {
                Some(expected) => wait matches Some(actual) && actual == expected,
                None => wait is None,
            },
    {
        if !needs_periodic_route_refresh(&self.state.config) && self.state.managed_routes.len()
            == 0 {
            return None;
        }
        let health: u64 = self.next_route_health_at.saturating_sub(now);
        if should_schedule_dns_refresh(&self.state.config) {
            let names: u64 = self.next_dns_refresh_at.saturating_sub(now);
            if names < health {
                return Some(names);
            }
        }
        Some(health)
    }
}

}
