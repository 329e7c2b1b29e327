//! How a transport is set up.
use vstd::prelude::*;

use crate::config::{IceServer, RtcConfiguration};
use crate::transports::ice::candidate;
use crate::transports::ice::candidate::IceRole;
use crate::transports::ice::transport;
use crate::transports::ice::transport::{IceTransport, IceView};

verus! {

/// A transport to be: its configuration, its role and more servers.
#[derive(Debug, Clone)]
pub struct IceTransportBuilder {
    config: RtcConfiguration,
    role: IceRole,
    servers: Vec<IceServer>,
}

/// A transport to be: its configuration, its role and more servers.
#[verifier::ext_equal]
pub struct BuilderView {
    pub config: RtcConfiguration,
    pub role: IceRole,
    pub servers: Seq<IceServer>,
}

impl View for IceTransportBuilder {
    type V = BuilderView;

    closed spec fn view(&self) -> BuilderView {
        BuilderView { config: self.config, role: self.role, servers: self.servers@ }
    }
}

impl IceTransportBuilder {
    pub fn new(config: RtcConfiguration) -> (r: Self)
        ensures
            r@ == (BuilderView { config, role: IceRole::Controlled, servers: seq![] }),
    {
        IceTransportBuilder { config, role: IceRole::Controlled, servers: Vec::new() }
    }

    pub fn role(self, role: IceRole) -> (r: Self)
        ensures
            r@ == (BuilderView { role, ..self@ }),
    {
        IceTransportBuilder { config: self.config, role, servers: self.servers }
    }

    pub fn server(self, server: IceServer) -> (r: Self)
        ensures
            r@ == (BuilderView { servers: self@.servers.push(server), ..self@ }),
    {
        let mut servers = self.servers;
        servers.push(server);
        IceTransportBuilder { config: self.config, role: self.role, servers }
    }

    /// The transport, in its role, with the servers of its configuration and those that were
    /// added. Its parameters are random.
    pub fn build(self) -> (r: IceTransport)
        ensures
            r@ == (IceView {
                role: self@.role,
                ..transport::new_transport(r@.config, r@.local_parameters)
            }),
            r@.config == (RtcConfiguration {
                ice_servers: r@.config.ice_servers,
                ..self@.config
            }),
            r@.config.ice_servers@ == self@.config.ice_servers@ + self@.servers,
            candidate::is_drawn(r@.local_parameters),
            r@.local_parameters.username_fragment.len() == 16,
            r@.local_parameters.password.len() == 32,
    {
        let mut config = self.config;
        let mut servers = self.servers;
        config.ice_servers.append(&mut servers);
        let mut transport = IceTransport::new(config);
        transport.set_role(self.role);
        transport
    }
}

} // verus!
