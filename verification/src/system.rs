//! The system-wide SOCKS proxy setting of macOS, as a matter of
//! bookkeeping: which `networksetup` commands are due, and whether the
//! proxy is on. Running the commands is the caller's.

use vstd::prelude::*;

verus! {

/// The network service that is configured unless another is detected.
pub open spec fn default_interface() -> Seq<char> {
    "Wi-Fi"@
}

/// One invocation of `networksetup`.
#[derive(Debug, Clone, PartialEq, Eq)]
pub enum ProxyCommand {
    /// `-setsocksfirewallproxy <interface> <host> <port>`
    SetSocksProxy { interface: String, host: String, port: u16 },
    /// `-setsocksfirewallproxystate <interface> on|off`
    SetSocksProxyState { interface: String, on: bool },
}

/// Why the proxy was not enabled.
#[derive(Debug, Clone, Copy, PartialEq, Eq, Structural)]
pub enum SystemError {
    /// `networksetup` ran and reported failure.
    CommandFailed,
    /// `networksetup` could not be run.
    CommandNotRun,
}

/// How an invocation ended.
#[derive(Debug, Clone, Copy, PartialEq, Eq, Structural)]
pub enum CommandStatus {
    /// It ran and reported success.
    Success,
    /// It ran and reported failure.
    Failure,
    /// It could not be run.
    NotRun,
}

/// Keeps track of the system proxy setting.
pub struct MacProxyManager {
    interface_name: String,
    active: bool,
}

impl MacProxyManager {
    /// The network service that is configured.
    pub closed spec fn interface(&self) -> Seq<char> {
        self.interface_name@
    }

    /// Whether the proxy has been enabled and not disabled since.
    pub closed spec fn active(&self) -> bool {
        self.active
    }

    /// A manager for the detected network service, `Wi-Fi` if none is
    /// detected; the proxy counts as off.
    pub fn new() -> (m: MacProxyManager)
        ensures
            m.interface() == default_interface(),
            !m.active(),
    {
        let interface_name = match Self::detect_interface() {
            Some(name) => name,
            None => "Wi-Fi".to_owned(),
        };
        MacProxyManager { interface_name, active: false }
    }

    /// The network service to configure. Detection is a fixed answer:
    /// `Wi-Fi`.
    pub fn detect_interface() -> (r: Option<String>)
        ensures
            r matches Some(name) && name@ == default_interface(),
    {
        Some("Wi-Fi".to_owned())
    }

    /// The network service that is configured.
    pub fn interface_name(&self) -> (name: &str)
        ensures
            name@ == self.interface(),
    {
        self.interface_name.as_str()
    }

    /// Whether the proxy has been enabled and not disabled since.
    pub fn is_active(&self) -> (b: bool)
        ensures
            b == self.active(),
    {
        self.active
    }

    /// The command that points the system at the SOCKS proxy `host:port`.
    /// Its outcome goes to `enabled`.
    pub fn enable(&self, host: &str, port: u16) -> (c: ProxyCommand)
        ensures
            c matches ProxyCommand::SetSocksProxy { interface, host: h, port: p } && interface@
                == self.interface() && h@ == host@ && p == port,
    {
        ProxyCommand::SetSocksProxy {
            interface: self.interface_name.clone(),
            host: host.to_owned(),
            port,
        }
    }

    /// Takes note of how the command of `enable` ended. On success the
    /// proxy counts as on, and the command that switches it on is due (its
    /// outcome is of no interest); otherwise nothing changes.
    pub fn enabled(&mut self, status: CommandStatus) -> (r: Result<ProxyCommand, SystemError>)
        ensures
            final(self).interface() == old(self).interface(),
            match status {
                CommandStatus::Success => final(self).active() && (r matches Ok(
                    ProxyCommand::SetSocksProxyState { interface, on },
                ) && interface@ == old(self).interface() && on),
                CommandStatus::Failure => final(self).active() == old(self).active() && r == Err::<
                    ProxyCommand,
                    SystemError,
                >(SystemError::CommandFailed),
                CommandStatus::NotRun => final(self).active() == old(self).active() && r == Err::<
                    ProxyCommand,
                    SystemError,
                >(SystemError::CommandNotRun),
            },
    {
        match status {
            CommandStatus::Success => {
                self.active = true;
                Ok(
                    ProxyCommand::SetSocksProxyState {
                        interface: self.interface_name.clone(),
                        on: true,
                    },
                )
            },
            CommandStatus::Failure => Err(SystemError::CommandFailed),
            CommandStatus::NotRun => Err(SystemError::CommandNotRun),
        }
    }

    /// Switches the proxy off if it is on: the command that does so is
    /// returned and the proxy counts as off. Nothing is due if it is off.
    pub fn disable(&mut self) -> (r: Option<ProxyCommand>)
        ensures
            final(self).interface() == old(self).interface(),
            !final(self).active(),
            old(self).active() ==> (r matches Some(
                ProxyCommand::SetSocksProxyState { interface, on },
            ) && interface@ == old(self).interface() && !on),
            !old(self).active() ==> r is None,
    {
        if !self.active {
            return None;
        }
        self.active = false;
        Some(
            ProxyCommand::SetSocksProxyState { interface: self.interface_name.clone(), on: false },
        )
    }
}

} // verus!
