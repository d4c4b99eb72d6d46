use rust_vpn_splitter::domain::VpnKind;
use rust_vpn_splitter::health::RouteHealthOutcome;
use rust_vpn_splitter::physical::{prepare_profile_routes_for, INTERNET_BYPASS_PREFIXES};
use rust_vpn_splitter::physical_health::evaluate_route_health_with;
use rust_vpn_splitter::preparation::PreparedRoutes;
use rust_vpn_splitter::routes::{reconciled_routes_for_config, replace_vpn_routes};
use rust_vpn_splitter::selection::enabled_full_tunnel_vpns;
use rust_vpn_splitter::state::{cleanup_managed_routes_with, disable_all_profiles, PersistedState};
use rust_vpn_splitter::windows::{
    InternetGateway, ManagedRoute, ManagedRoutePurpose, NetworkAdapter, RoutePriority,
};

const SEEDS_PER_VPN: u64 = 256;
const STEPS_PER_SEED: usize = 96;

fn full_tunnel(takes_all: bool) -> Option<RoutePriority> {
    if takes_all {
        Some(RoutePriority { prefix_length: 0, effective_metric: 1 })
    } else {
        None
    }
}

fn no_names(vpn: VpnKind, hostname: &str, _servers: &[String]) -> Result<Vec<u32>, String> {
    panic!("{} has no names, but {hostname} was asked for", vpn.name())
}

#[derive(Default)]
struct FakeRouteTable {
    routes: Vec<ManagedRoute>,
}

impl FakeRouteTable {
    fn same_os_route(left: &ManagedRoute, right: &ManagedRoute) -> bool {
        left.prefix == right.prefix
            && left.interface_index == right.interface_index
            && left.next_hop == right.next_hop
            && left.route_metric == right.route_metric
    }

    fn existing(&self, inventory: &[ManagedRoute]) -> Vec<ManagedRoute> {
        inventory
            .iter()
            .filter(|candidate| {
                self.routes
                    .iter()
                    .any(|route| Self::same_os_route(route, candidate))
            })
            .cloned()
            .collect()
    }

    fn apply(
        &mut self,
        previous: &[ManagedRoute],
        desired: &[ManagedRoute],
    ) -> Result<(), String> {
        let to_remove = previous
            .iter()
            .filter(|candidate| {
                !desired
                    .iter()
                    .any(|route| Self::same_os_route(route, candidate))
            })
            .cloned()
            .collect::<Vec<_>>();
        let to_add = desired
            .iter()
            .filter(|candidate| {
                !previous
                    .iter()
                    .any(|route| Self::same_os_route(route, candidate))
            })
            .cloned()
            .collect::<Vec<_>>();

        if let Some(conflict) = to_add.iter().find(|candidate| {
            self.routes
                .iter()
                .any(|route| Self::same_os_route(route, candidate))
        }) {
            return Err(format!("route already exists: {}", conflict.prefix));
        }

        for removed in &to_remove {
            if let Some(index) = self
                .routes
                .iter()
                .position(|route| Self::same_os_route(route, removed))
            {
                self.routes.remove(index);
            }
        }
        self.routes.extend(to_add);
        Ok(())
    }

    fn matches(&self, expected: &[ManagedRoute]) -> bool {
        self.routes.len() == expected.len()
            && expected.iter().all(|candidate| {
                self.routes
                    .iter()
                    .any(|route| Self::same_os_route(route, candidate))
            })
    }
}

struct LifecycleHarness {
    app_open: bool,
    state: PersistedState,
    table: FakeRouteTable,
    adapters: Vec<NetworkAdapter>,
    gateway: InternetGateway,
}

impl LifecycleHarness {
    fn new(initial_full_tunnel: VpnKind) -> Self {
        let adapters = vec![
            NetworkAdapter {
                index: 41,
                name: "FortiClient VPN".to_owned(),
                description: "Fortinet SSL VPN Virtual Ethernet Adapter".to_owned(),
                status: "Up".to_owned(),
                next_hop: "0.0.0.0".to_owned(),
                full_tunnel_priority: full_tunnel(initial_full_tunnel == VpnKind::FortiClient),
                dns_servers: Vec::new(),
            },
            NetworkAdapter {
                index: 42,
                name: "F5 VPN".to_owned(),
                description: "F5 Networks VPN Adapter".to_owned(),
                status: "Up".to_owned(),
                next_hop: "0.0.0.0".to_owned(),
                full_tunnel_priority: full_tunnel(initial_full_tunnel == VpnKind::F5),
                dns_servers: Vec::new(),
            },
            NetworkAdapter {
                index: 43,
                name: "Ivanti VPN".to_owned(),
                description: "Pulse Secure Virtual Adapter".to_owned(),
                status: "Up".to_owned(),
                next_hop: "0.0.0.0".to_owned(),
                full_tunnel_priority: full_tunnel(initial_full_tunnel == VpnKind::Ivanti),
                dns_servers: Vec::new(),
            },
        ];
        let mut state = PersistedState::default();
        for (vpn, description, network) in [
            (
                VpnKind::FortiClient,
                "Fortinet SSL VPN Virtual Ethernet Adapter",
                "10.10.0.0/16",
            ),
            (VpnKind::F5, "F5 Networks VPN Adapter", "10.20.0.0/16"),
            (
                VpnKind::Ivanti,
                "Pulse Secure Virtual Adapter",
                "10.30.0.0/16",
            ),
        ] {
            let profile = state.config.profile_mut(vpn).expect("profile exists");
            profile.adapter_description = Some(description.to_owned());
            profile.networks = network.to_owned();
        }

        Self {
            app_open: true,
            state,
            table: FakeRouteTable::default(),
            adapters,
            gateway: InternetGateway {
                interface_index: 7,
                interface_alias: "Wi-Fi".to_owned(),
                interface_description: "Physical Wi-Fi Adapter".to_owned(),
                next_hop: "192.0.2.1".to_owned(),
                inferred_from_escape_route: false,
                route_priority: None,
                dns_servers: vec!["192.0.2.53".to_owned()],
                fallback_dns_servers: vec!["192.0.2.53".to_owned()],
            },
        }
    }

    fn toggle_profile(&mut self, vpn: VpnKind) {
        if !self.app_open {
            return;
        }
        let enabled = !self
            .state
            .config
            .profile(vpn)
            .expect("profile exists")
            .enabled;
        let mut next_config = self.state.config.clone();
        next_config
            .profile_mut(vpn)
            .expect("profile exists")
            .enabled = enabled;
        let prepared = if enabled {
            let Ok(prepared) = prepare_profile_routes_for(
                &next_config,
                vpn,
                &self.adapters,
                Some(&self.gateway),
                no_names,
            ) else {
                return;
            };
            prepared
        } else {
            PreparedRoutes::default()
        };
        let desired = replace_vpn_routes(&self.state.managed_routes, vpn, prepared.routes);
        if self
            .table
            .apply(&self.state.managed_routes, &desired)
            .is_ok()
        {
            self.state.config = next_config;
            self.state.managed_routes = desired;
        }
    }

    fn health_check(&mut self) -> Result<(), String> {
        if !self.app_open {
            return Ok(());
        }
        let current = self.state.managed_routes.clone();
        let existing = self.table.existing(&current);
        let outcome = evaluate_route_health_with(
            current,
            self.state.config.clone(),
            existing,
            self.adapters.clone(),
            Some(self.gateway.clone()),
            |previous, desired| self.table.apply(previous, desired),
            |_| Ok(false),
        );
        match outcome {
            RouteHealthOutcome::Healthy => Ok(()),
            RouteHealthOutcome::Updated { config, routes, .. } => {
                self.state.config = config;
                self.state.managed_routes = routes;
                Ok(())
            }
            RouteHealthOutcome::Failed(error) => Err(error),
        }
    }

    fn set_vpn_connected(&mut self, vpn: VpnKind, connected: bool) {
        let adapter = self
            .adapters
            .iter_mut()
            .find(|adapter| adapter.matches(vpn))
            .expect("adapter exists");
        let was_connected = adapter.is_up();
        let old_index = adapter.index;
        adapter.status = if connected { "Up" } else { "Disconnected" }.to_owned();
        if connected && !was_connected {
            adapter.index += 100;
        }
        if !connected {
            self.table
                .routes
                .retain(|route| route.interface_index != old_index);
        }
    }

    fn flip_vpn_connection(&mut self, vpn: VpnKind) {
        let connected = !self
            .adapters
            .iter()
            .find(|adapter| adapter.matches(vpn))
            .expect("adapter exists")
            .is_up();
        self.set_vpn_connected(vpn, connected);
    }

    fn flip_full_tunnel(&mut self, vpn: VpnKind) {
        let adapter = self
            .adapters
            .iter_mut()
            .find(|adapter| adapter.matches(vpn))
            .expect("adapter exists");
        adapter.full_tunnel_priority = full_tunnel(adapter.full_tunnel_priority.is_none());
    }

    fn change_gateway(&mut self) {
        self.gateway.interface_index = if self.gateway.interface_index == 7 {
            107
        } else {
            7
        };
        self.gateway.next_hop = if self.gateway.next_hop == "192.0.2.1" {
            "192.0.2.254".to_owned()
        } else {
            "192.0.2.1".to_owned()
        };
    }

    fn drop_managed_route(&mut self, from_end: bool) {
        if self.table.routes.is_empty() {
            return;
        }
        let index = if from_end {
            self.table.routes.len() - 1
        } else {
            0
        };
        self.table.routes.remove(index);
    }

    fn graceful_close(&mut self) -> Result<(), String> {
        if !self.app_open {
            return Ok(());
        }
        cleanup_managed_routes_with(&mut self.state, |inventory| {
            self.table.apply(inventory, &[])
        })?;
        self.app_open = false;
        if !self.table.routes.is_empty() {
            return Err("graceful close left managed routes in ActiveStore".to_owned());
        }
        Ok(())
    }

    fn crash(&mut self) {
        self.app_open = false;
    }

    fn power_cycle(&mut self) {
        self.app_open = false;
        self.table.routes.clear();
    }

    fn open(&mut self) -> Result<(), String> {
        if self.app_open {
            return Ok(());
        }
        disable_all_profiles(&mut self.state);
        let previous = self.state.managed_routes.clone();
        let existing = self.table.existing(&previous);
        let reconciled = reconciled_routes_for_config(&previous, &existing, &self.state.config);
        self.table.apply(&existing, &reconciled)?;
        self.state.managed_routes = reconciled;
        self.app_open = true;
        self.assert_stable()
    }

    fn assert_stable(&self) -> Result<(), String> {
        if !self.app_open {
            return Err("stable assertion requires an open app".to_owned());
        }
        if !self.table.matches(&self.state.managed_routes) {
            return Err(format!(
                "state/ActiveStore mismatch: state={:?}, active={:?}",
                self.state.managed_routes, self.table.routes
            ));
        }

        let enabled_full_tunnels = enabled_full_tunnel_vpns(&self.state.config, &self.adapters);
        if enabled_full_tunnels.len() > 1 {
            return Err(format!(
                "more than one enabled Full Tunnel: {enabled_full_tunnels:?}"
            ));
        }

        for vpn in VpnKind::ALL {
            let profile = self.state.config.profile(vpn).expect("profile exists");
            let vpn_routes = self
                .state
                .managed_routes
                .iter()
                .filter(|route| route.vpn == vpn)
                .collect::<Vec<_>>();
            if !profile.enabled {
                if !vpn_routes.is_empty() {
                    return Err(format!("disabled {} still owns managed routes", vpn.name()));
                }
                continue;
            }

            let adapter = self
                .adapters
                .iter()
                .find(|adapter| adapter.matches(vpn) && adapter.is_up())
                .ok_or_else(|| format!("enabled {} has no connected adapter", vpn.name()))?;
            let targets = vpn_routes
                .iter()
                .filter(|route| route.purpose == ManagedRoutePurpose::Target)
                .collect::<Vec<_>>();
            if targets.is_empty()
                || targets.iter().any(|route| {
                    route.interface_index != adapter.index || route.next_hop != adapter.next_hop
                })
            {
                return Err(format!("{} target routes use a stale VPN endpoint", vpn.name()));
            }
            let bypasses = vpn_routes
                .iter()
                .filter(|route| route.purpose == ManagedRoutePurpose::InternetBypass)
                .collect::<Vec<_>>();
            if adapter.full_tunnel_priority.is_some() {
                if bypasses.len() != INTERNET_BYPASS_PREFIXES.len()
                    || bypasses.iter().any(|route| {
                        route.interface_index != self.gateway.interface_index
                            || route.next_hop != self.gateway.next_hop
                    })
                {
                    return Err(format!("{} has incomplete or stale internet bypasses", vpn.name()));
                }
            } else if !bypasses.is_empty() {
                return Err(format!("split-tunnel {} still owns internet bypasses", vpn.name()));
            }
        }
        Ok(())
    }

    fn apply_event(&mut self, event: usize) -> Result<&'static str, String> {
        let name = match event {
            0 => {
                self.toggle_profile(VpnKind::FortiClient);
                "toggle_forticlient"
            }
            1 => {
                self.toggle_profile(VpnKind::F5);
                "toggle_f5"
            }
            2 => {
                self.toggle_profile(VpnKind::Ivanti);
                "toggle_ivanti"
            }
            3 => {
                self.flip_vpn_connection(VpnKind::FortiClient);
                "flip_forticlient_connection"
            }
            4 => {
                self.flip_vpn_connection(VpnKind::F5);
                "flip_f5_connection"
            }
            5 => {
                self.flip_vpn_connection(VpnKind::Ivanti);
                "flip_ivanti_connection"
            }
            6 => {
                self.flip_full_tunnel(VpnKind::FortiClient);
                "flip_forticlient_tunnel_mode"
            }
            7 => {
                self.flip_full_tunnel(VpnKind::F5);
                "flip_f5_tunnel_mode"
            }
            8 => {
                self.flip_full_tunnel(VpnKind::Ivanti);
                "flip_ivanti_tunnel_mode"
            }
            9 => {
                self.drop_managed_route(false);
                "drop_first_managed_route"
            }
            10 => {
                self.drop_managed_route(true);
                "drop_last_managed_route"
            }
            11 => {
                self.change_gateway();
                "change_physical_gateway"
            }
            12 => {
                self.health_check()?;
                if self.app_open {
                    self.assert_stable()?;
                }
                "route_health_check"
            }
            13 => {
                self.graceful_close()?;
                "graceful_close"
            }
            14 => {
                self.open()?;
                "open"
            }
            15 => {
                self.crash();
                "process_crash"
            }
            16 => {
                self.power_cycle();
                "power_cycle"
            }
            17 => {
                self.graceful_close()?;
                self.open()?;
                "graceful_restart"
            }
            18 => {
                self.crash();
                self.open()?;
                "crash_recovery"
            }
            _ => unreachable!("event code is bounded"),
        };
        Ok(name)
    }
}

#[test]
fn lifecycle_scenarios_cover_app_vpn_and_split_tunnel_orderings() {
    for vpn in VpnKind::ALL {
        let mut harness = LifecycleHarness::new(vpn);

        // The VPN is already connected when the app enables split tunneling.
        harness.toggle_profile(vpn);
        harness.health_check().expect("initial health check");
        harness.assert_stable().expect("initial enabled state");

        // The VPN can disappear and rebuild its RAS interface while the app stays open.
        let old_index = harness
            .adapters
            .iter()
            .find(|adapter| adapter.matches(vpn))
            .expect("adapter exists")
            .index;
        harness.set_vpn_connected(vpn, false);
        harness.health_check().expect("disconnect health check");
        assert!(
            !harness
                .state
                .config
                .profile(vpn)
                .expect("profile exists")
                .enabled,
            "{} must be disabled after it disconnects",
                vpn.name()
        );
        harness.assert_stable().expect("disconnected state");

        harness.set_vpn_connected(vpn, true);
        let new_index = harness
            .adapters
            .iter()
            .find(|adapter| adapter.matches(vpn))
            .expect("adapter exists")
            .index;
        assert_ne!(old_index, new_index, "reconnect must model a new interface");
        harness.toggle_profile(vpn);
        harness.health_check().expect("reconnect health check");
        harness.assert_stable().expect("reconnected state");

        // Repeated user toggles must add and remove every owned route cleanly.
        harness.toggle_profile(vpn);
        harness.assert_stable().expect("disabled toggle state");
        harness.toggle_profile(vpn);
        harness.health_check().expect("re-enabled health check");
        harness.assert_stable().expect("re-enabled state");

        // External route, tunnel-mode, and physical-gateway changes must self-repair.
        harness.drop_managed_route(false);
        harness.health_check().expect("deleted route repair");
        harness.assert_stable().expect("repaired route state");
        harness.flip_full_tunnel(vpn);
        harness.health_check().expect("Full-to-Split transition");
        harness.assert_stable().expect("Split Tunnel state");
        harness.flip_full_tunnel(vpn);
        harness.change_gateway();
        harness.health_check().expect("Split-to-Full transition");
        harness.assert_stable().expect("new physical gateway state");

        // Closing and reopening while the VPN remains connected leaves no stale routes.
        harness.graceful_close().expect("graceful close");
        assert!(
            harness.table.routes.is_empty(),
            "close must remove all routes"
        );
        harness.open().expect("open over an already connected VPN");
        harness.assert_stable().expect("reopened state");

        // An abnormal exit can leave ActiveStore routes, but the next launch must recover.
        harness.toggle_profile(vpn);
        assert!(
            !harness.table.routes.is_empty(),
            "enabled profile has routes"
        );
        harness.crash();
        assert!(
            !harness.table.routes.is_empty(),
            "the harness must model routes surviving a process crash"
        );
        harness.open().expect("crash recovery launch");
        harness.assert_stable().expect("crash recovery state");

        // A reboot drops ActiveStore routes while persisted inventory survives.
        harness.toggle_profile(vpn);
        harness.power_cycle();
        assert!(harness.table.routes.is_empty(), "reboot clears ActiveStore");
        harness.open().expect("post-reboot launch");
        harness.assert_stable().expect("post-reboot state");
        harness.graceful_close().expect("final close");
    }
}

#[test]
fn lifecycle_state_machine_converges_for_deterministic_event_sequences() {
    for (vpn_number, initial_full_tunnel) in VpnKind::ALL.into_iter().enumerate() {
        for seed in 0..SEEDS_PER_VPN {
            let mut harness = LifecycleHarness::new(initial_full_tunnel);
            let mut random = seed
                .wrapping_add((vpn_number as u64 + 1) << 32)
                .wrapping_add(0x9E37_79B9_7F4A_7C15);
            let mut recent_trace = Vec::new();

            for step in 0..STEPS_PER_SEED {
                random ^= random << 13;
                random ^= random >> 7;
                random ^= random << 17;
                let event = (random % 19) as usize;
                match harness.apply_event(event) {
                    Ok(name) => {
                        recent_trace.push(format!("{step}:{name}"));
                        if recent_trace.len() > 32 {
                            recent_trace.remove(0);
                        }
                    }
                    Err(error) => panic!(
                        "state-machine event failed: initial_full_tunnel={initial_full_tunnel:?}, seed={seed}, step={step}, event={event}, error={error}, recent_trace={recent_trace:?}"
                    ),
                }
            }

            if !harness.app_open {
                harness.open().unwrap_or_else(|error| {
                    panic!(
                        "final recovery launch failed: initial_full_tunnel={initial_full_tunnel:?}, seed={seed}, error={error}, recent_trace={recent_trace:?}"
                    )
                });
            }
            harness.health_check().unwrap_or_else(|error| {
                panic!(
                    "final health check failed: initial_full_tunnel={initial_full_tunnel:?}, seed={seed}, error={error}, recent_trace={recent_trace:?}"
                )
            });
            harness.assert_stable().unwrap_or_else(|error| {
                panic!(
                    "final state did not converge: initial_full_tunnel={initial_full_tunnel:?}, seed={seed}, error={error}, recent_trace={recent_trace:?}"
                )
            });
            harness.graceful_close().unwrap_or_else(|error| {
                panic!(
                    "final close failed: initial_full_tunnel={initial_full_tunnel:?}, seed={seed}, error={error}, recent_trace={recent_trace:?}"
                )
            });
            assert!(
                harness.table.routes.is_empty(),
                "final close left routes: initial_full_tunnel={initial_full_tunnel:?}, seed={seed}, recent_trace={recent_trace:?}"
            );
        }
    }
}

