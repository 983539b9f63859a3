//! What holds of the plugins that are compiled in.
use vstd::prelude::*;

use crate::certsh::CertshPlugin;
use crate::dnsx::DnsxPlugin;
use crate::entity::EntityType;
use crate::httpx::HttpxPlugin;
use crate::json::JsonView;
use crate::katana::KatanaPlugin;
use crate::nuclei::NucleiPlugin;
use crate::plugin::{law_registered_plugin_is_found, plugin_at, registered, ReconPlugin};
use crate::plugins::{all_registered, built_in, Plugin};
use crate::portscan::PortscanPlugin;
use crate::subfinder::SubfinderPlugin;
use crate::whois::WhoisPlugin;

verus! {

/// Every plugin is known by its own name and needs a binary of the same name,
/// or none.
pub proof fn law_plugins_have_names()
    ensures
        SubfinderPlugin.name_text() == "subfinder"@ && SubfinderPlugin.binary_text()
            == "subfinder"@ && !SubfinderPlugin.native(),
        KatanaPlugin.name_text() == "katana"@ && KatanaPlugin.binary_text() == "katana"@
            && !KatanaPlugin.native(),
        NucleiPlugin.name_text() == "nuclei"@ && NucleiPlugin.binary_text() == "nuclei"@
            && !NucleiPlugin.native(),
        DnsxPlugin.name_text() == "dnsx"@ && DnsxPlugin.native(),
        WhoisPlugin.name_text() == "whois"@ && WhoisPlugin.native(),
        CertshPlugin.name_text() == "certsh"@ && CertshPlugin.native(),
        HttpxPlugin.name_text() == "httpx"@ && HttpxPlugin.native(),
        PortscanPlugin.name_text() == "portscan"@ && PortscanPlugin.native(),
{
}

/// What the plugins accept and produce, so that each can follow those that
/// produce what it accepts: domains lead to subdomains and certificates, hosts
/// to addresses and URLs, addresses to ports, URLs to endpoints and
/// vulnerabilities.
pub proof fn law_plugins_accept_and_produce()
    ensures
        SubfinderPlugin.inputs() == seq![EntityType::Domain],
        SubfinderPlugin.outputs() == seq![EntityType::Subdomain],
        DnsxPlugin.inputs() == seq![EntityType::Domain, EntityType::Subdomain],
        DnsxPlugin.outputs() == seq![EntityType::IpAddress],
        WhoisPlugin.inputs() == seq![EntityType::Domain, EntityType::IpAddress],
        WhoisPlugin.outputs() == seq![
            EntityType::Domain,
            EntityType::IpAddress,
            EntityType::Asn,
            EntityType::Cidr,
        ],
        CertshPlugin.inputs() == seq![EntityType::Domain],
        CertshPlugin.outputs() == seq![EntityType::Subdomain, EntityType::Certificate],
        HttpxPlugin.inputs() == seq![
            EntityType::Domain,
            EntityType::Subdomain,
            EntityType::IpAddress,
        ],
        HttpxPlugin.outputs() == seq![EntityType::Url],
        PortscanPlugin.inputs() == seq![EntityType::IpAddress],
        PortscanPlugin.outputs() == seq![EntityType::Port],
        KatanaPlugin.inputs() == seq![EntityType::Url],
        KatanaPlugin.outputs() == seq![EntityType::Endpoint],
        NucleiPlugin.inputs() == seq![EntityType::Url],
        NucleiPlugin.outputs() == seq![EntityType::Vulnerability],
{
}

/// A plugin is among the built-in ones whatever it is, and is what it was made
/// from.
pub proof fn law_every_plugin_is_built_in(p: Plugin)
    ensures
        built_in().contains(p),
        built_in().len() == 8,
        match p {
            Plugin::Subfinder(q) => p.name_text() == q.name_text() && p.inputs() == q.inputs()
                && p.outputs() == q.outputs() && p.native() == q.native() && p.binary_text()
                == q.binary_text(),
            Plugin::Dnsx(q) => p.name_text() == q.name_text() && p.inputs() == q.inputs()
                && p.outputs() == q.outputs() && p.native() == q.native() && p.binary_text()
                == q.binary_text(),
            Plugin::Whois(q) => p.name_text() == q.name_text() && p.inputs() == q.inputs()
                && p.outputs() == q.outputs() && p.native() == q.native() && p.binary_text()
                == q.binary_text(),
            Plugin::Certsh(q) => p.name_text() == q.name_text() && p.inputs() == q.inputs()
                && p.outputs() == q.outputs() && p.native() == q.native() && p.binary_text()
                == q.binary_text(),
            Plugin::Httpx(q) => p.name_text() == q.name_text() && p.inputs() == q.inputs()
                && p.outputs() == q.outputs() && p.native() == q.native() && p.binary_text()
                == q.binary_text(),
            Plugin::Portscan(q) => p.name_text() == q.name_text() && p.inputs() == q.inputs()
                && p.outputs() == q.outputs() && p.native() == q.native() && p.binary_text()
                == q.binary_text(),
            Plugin::Katana(q) => p.name_text() == q.name_text() && p.inputs() == q.inputs()
                && p.outputs() == q.outputs() && p.native() == q.native() && p.binary_text()
                == q.binary_text(),
            Plugin::Nuclei(q) => p.name_text() == q.name_text() && p.inputs() == q.inputs()
                && p.outputs() == q.outputs() && p.native() == q.native() && p.binary_text()
                == q.binary_text(),
        },
{
    let all = built_in();
    assert(all[0] is Subfinder && all[1] is Dnsx && all[2] is Whois && all[3] is Certsh && all[4]
        is Httpx && all[5] is Portscan && all[6] is Katana && all[7] is Nuclei);
    match p {
        Plugin::Subfinder(q) => assert(all[0] == p),
        Plugin::Dnsx(q) => assert(all[1] == p),
        Plugin::Whois(q) => assert(all[2] == p),
        Plugin::Certsh(q) => assert(all[3] == p),
        Plugin::Httpx(q) => assert(all[4] == p),
        Plugin::Portscan(q) => assert(all[5] == p),
        Plugin::Katana(q) => assert(all[6] == p),
        Plugin::Nuclei(q) => assert(all[7] == p),
    }
}

/// Once all plugins of a list are registered, each name of the list is found,
/// under a plugin of the list with that name.
pub proof fn law_registered_plugins_are_found(table: Seq<Plugin>, plugins: Seq<Plugin>, k: int)
    requires
        0 <= k < plugins.len(),
    ensures
        plugin_at(all_registered(table, plugins), plugins[k].name_text()) matches Some(i)
            && plugins.contains(all_registered(table, plugins)[i]) && all_registered(
            table,
            plugins,
        )[i].name_text() == plugins[k].name_text(),
    decreases plugins.len(),
{
    let front = plugins.drop_last();
    let last = plugins.last();
    let before = all_registered(table, front);
    let after = all_registered(table, plugins);
    let name = plugins[k].name_text();
    assert(after == registered(before, last));
    law_registered_plugin_is_found(before, last, name);
    if name == last.name_text() {
        assert(plugins[plugins.len() - 1] == last);
        assert(plugins.contains(last));
    } else {
        assert(k < front.len());
        assert(front[k] == plugins[k]);
        law_registered_plugins_are_found(table, front, k);
        let i = plugin_at(before, name)->0;
        assert(after[i] == before[i]);
        let j = front.index_of(before[i]);
        assert(plugins[j] == before[i]);
    }
}

/// Detail that is no object is replaced by later detail, and nothing replaces
/// nothing.
pub proof fn law_detail_that_is_no_object_is_replaced(old: JsonView, new: JsonView)
    ensures
        old.merged(JsonView::Null) == old,
        !(new is Null) && !(old is Object && new is Object) ==> old.merged(new) == new,
{
}

} // verus!
