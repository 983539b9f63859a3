//! Every plugin that is compiled in.
use vstd::prelude::*;

use crate::certsh::CertshPlugin;
use crate::dnsx::DnsxPlugin;
use crate::entity::EntityType;
use crate::httpx::HttpxPlugin;
use crate::katana::KatanaPlugin;
use crate::nuclei::NucleiPlugin;
use crate::plugin::{registered, PluginRegistry, ReconPlugin};
use crate::portscan::PortscanPlugin;
use crate::subfinder::SubfinderPlugin;
use crate::whois::WhoisPlugin;

verus! {

/// One of the plugins that are compiled in.
pub enum Plugin {
    Subfinder(SubfinderPlugin),
    Dnsx(DnsxPlugin),
    Whois(WhoisPlugin),
    Certsh(CertshPlugin),
    Httpx(HttpxPlugin),
    Portscan(PortscanPlugin),
    Katana(KatanaPlugin),
    Nuclei(NucleiPlugin),
}

impl ReconPlugin for Plugin {
    open spec fn name_text(&self) -> Seq<char> {
        match *self {
            Plugin::Subfinder(p) => p.name_text(),
            Plugin::Dnsx(p) => p.name_text(),
            Plugin::Whois(p) => p.name_text(),
            Plugin::Certsh(p) => p.name_text(),
            Plugin::Httpx(p) => p.name_text(),
            Plugin::Portscan(p) => p.name_text(),
            Plugin::Katana(p) => p.name_text(),
            Plugin::Nuclei(p) => p.name_text(),
        }
    }

    open spec fn binary_text(&self) -> Seq<char> {
        match *self {
            Plugin::Subfinder(p) => p.binary_text(),
            Plugin::Dnsx(p) => p.binary_text(),
            Plugin::Whois(p) => p.binary_text(),
            Plugin::Certsh(p) => p.binary_text(),
            Plugin::Httpx(p) => p.binary_text(),
            Plugin::Portscan(p) => p.binary_text(),
            Plugin::Katana(p) => p.binary_text(),
            Plugin::Nuclei(p) => p.binary_text(),
        }
    }

    open spec fn inputs(&self) -> Seq<EntityType> {
        match *self {
            Plugin::Subfinder(p) => p.inputs(),
            Plugin::Dnsx(p) => p.inputs(),
            Plugin::Whois(p) => p.inputs(),
            Plugin::Certsh(p) => p.inputs(),
            Plugin::Httpx(p) => p.inputs(),
            Plugin::Portscan(p) => p.inputs(),
            Plugin::Katana(p) => p.inputs(),
            Plugin::Nuclei(p) => p.inputs(),
        }
    }

    open spec fn outputs(&self) -> Seq<EntityType> {
        match *self {
            Plugin::Subfinder(p) => p.outputs(),
            Plugin::Dnsx(p) => p.outputs(),
            Plugin::Whois(p) => p.outputs(),
            Plugin::Certsh(p) => p.outputs(),
            Plugin::Httpx(p) => p.outputs(),
            Plugin::Portscan(p) => p.outputs(),
            Plugin::Katana(p) => p.outputs(),
            Plugin::Nuclei(p) => p.outputs(),
        }
    }

    open spec fn native(&self) -> bool {
        match *self {
            Plugin::Subfinder(p) => p.native(),
            Plugin::Dnsx(p) => p.native(),
            Plugin::Whois(p) => p.native(),
            Plugin::Certsh(p) => p.native(),
            Plugin::Httpx(p) => p.native(),
            Plugin::Portscan(p) => p.native(),
            Plugin::Katana(p) => p.native(),
            Plugin::Nuclei(p) => p.native(),
        }
    }

    fn name(&self) -> (r: &str) {
        match self {
            Plugin::Subfinder(p) => p.name(),
            Plugin::Dnsx(p) => p.name(),
            Plugin::Whois(p) => p.name(),
            Plugin::Certsh(p) => p.name(),
            Plugin::Httpx(p) => p.name(),
            Plugin::Portscan(p) => p.name(),
            Plugin::Katana(p) => p.name(),
            Plugin::Nuclei(p) => p.name(),
        }
    }

    fn required_binary(&self) -> (r: &str) {
        match self {
            Plugin::Subfinder(p) => p.required_binary(),
            Plugin::Dnsx(p) => p.required_binary(),
            Plugin::Whois(p) => p.required_binary(),
            Plugin::Certsh(p) => p.required_binary(),
            Plugin::Httpx(p) => p.required_binary(),
            Plugin::Portscan(p) => p.required_binary(),
            Plugin::Katana(p) => p.required_binary(),
            Plugin::Nuclei(p) => p.required_binary(),
        }
    }

    fn input_types(&self) -> (r: Vec<EntityType>) {
        match self {
            Plugin::Subfinder(p) => p.input_types(),
            Plugin::Dnsx(p) => p.input_types(),
            Plugin::Whois(p) => p.input_types(),
            Plugin::Certsh(p) => p.input_types(),
            Plugin::Httpx(p) => p.input_types(),
            Plugin::Portscan(p) => p.input_types(),
            Plugin::Katana(p) => p.input_types(),
            Plugin::Nuclei(p) => p.input_types(),
        }
    }

    fn output_types(&self) -> (r: Vec<EntityType>) {
        match self {
            Plugin::Subfinder(p) => p.output_types(),
            Plugin::Dnsx(p) => p.output_types(),
            Plugin::Whois(p) => p.output_types(),
            Plugin::Certsh(p) => p.output_types(),
            Plugin::Httpx(p) => p.output_types(),
            Plugin::Portscan(p) => p.output_types(),
            Plugin::Katana(p) => p.output_types(),
            Plugin::Nuclei(p) => p.output_types(),
        }
    }

    fn is_available(&self, found_on_path: bool) -> (r: bool) {
        match self {
            Plugin::Subfinder(p) => p.is_available(found_on_path),
            Plugin::Dnsx(p) => p.is_available(found_on_path),
            Plugin::Whois(p) => p.is_available(found_on_path),
            Plugin::Certsh(p) => p.is_available(found_on_path),
            Plugin::Httpx(p) => p.is_available(found_on_path),
            Plugin::Portscan(p) => p.is_available(found_on_path),
            Plugin::Katana(p) => p.is_available(found_on_path),
            Plugin::Nuclei(p) => p.is_available(found_on_path),
        }
    }
}

/// Every plugin of this crate, in the order of registration.
pub open spec fn built_in() -> Seq<Plugin> {
    seq![
        Plugin::Subfinder(SubfinderPlugin),
        Plugin::Dnsx(DnsxPlugin),
        Plugin::Whois(WhoisPlugin),
        Plugin::Certsh(CertshPlugin),
        Plugin::Httpx(HttpxPlugin),
        Plugin::Portscan(PortscanPlugin),
        Plugin::Katana(KatanaPlugin),
        Plugin::Nuclei(NucleiPlugin),
    ]
}

/// A table with all plugins of a list registered, one after the other.
pub open spec fn all_registered(table: Seq<Plugin>, plugins: Seq<Plugin>) -> Seq<Plugin>
    decreases plugins.len(),
{
    if plugins.len() == 0 {
        table
    } else {
        registered(all_registered(table, plugins.drop_last()), plugins.last())
    }
}

proof fn lemma_one_more(table: Seq<Plugin>, n: int)
    requires
        0 <= n < built_in().len(),
    ensures
        all_registered(table, built_in().take(n + 1)) == registered(
            all_registered(table, built_in().take(n)),
            built_in()[n],
        ),
{
    assert(built_in().take(n + 1).drop_last() == built_in().take(n));
    assert(built_in().take(n + 1).last() == built_in()[n]);
}

/// Registers every plugin implemented in this crate into `registry`.
pub fn register_all(registry: &mut PluginRegistry<Plugin>)
    ensures
        final(registry)@ == all_registered(old(registry)@, built_in()),
{
    let ghost table = registry@;
    proof {
        assert(built_in().take(0) == Seq::<Plugin>::empty());
        lemma_one_more(table, 0);
        lemma_one_more(table, 1);
        lemma_one_more(table, 2);
        lemma_one_more(table, 3);
        lemma_one_more(table, 4);
        lemma_one_more(table, 5);
        lemma_one_more(table, 6);
        lemma_one_more(table, 7);
        assert(built_in().take(8) == built_in());
    }
    registry.register(Plugin::Subfinder(SubfinderPlugin));
    registry.register(Plugin::Dnsx(DnsxPlugin));
    registry.register(Plugin::Whois(WhoisPlugin));
    registry.register(Plugin::Certsh(CertshPlugin));
    registry.register(Plugin::Httpx(HttpxPlugin));
    registry.register(Plugin::Portscan(PortscanPlugin));
    registry.register(Plugin::Katana(KatanaPlugin));
    registry.register(Plugin::Nuclei(NucleiPlugin));
}

} // verus!
