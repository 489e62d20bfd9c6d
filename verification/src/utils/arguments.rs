//! The settings of a run and their validation.

use crate::utils::dns::{
    is_domain_name, is_domain_name_text, is_ip_address, is_ip_address_text,
    record_type_from_text, record_type_of,
};
use crate::utils::text::{ends_with, lowered, lowered_ends_with, lowered_equals};
use crate::utils::utils::{
    available_cores, choose_core, cpu_count, select_cores, selected_cores, CpuModeError,
};
use vstd::prelude::*;
use vstd::string::StringExecFns;
use vstd::utf8::encode_utf8;

verus! {

/// The transport that carries the queries.
#[derive(Debug, Clone, Copy, PartialEq, Eq, Structural)]
pub enum Protocol {
    UDP,
    TCP,
    DOH,
    DOT,
}

impl Default for Protocol {
    fn default() -> (r: Self)
        ensures
            r == Protocol::UDP,
    {
        Protocol::UDP
    }
}

/// The transport that a text names, whatever the case of its letters.
pub open spec fn protocol_of(text: Seq<u8>) -> Option<Protocol> {
    if lowered(text) == seq![0x75u8, 0x64, 0x70] {
        Some(Protocol::UDP)
    } else if lowered(text) == seq![0x74u8, 0x63, 0x70] {
        Some(Protocol::TCP)
    } else if lowered(text) == seq![0x64u8, 0x6f, 0x68] {
        Some(Protocol::DOH)
    } else if lowered(text) == seq![0x64u8, 0x6f, 0x74] {
        Some(Protocol::DOT)
    } else {
        None
    }
}

impl Protocol {
    /// The transport that a text names: `UDP`, `TCP`, `DOH` or `DOT` in
    /// letters of any case.
    pub fn from_text(protocol: &str) -> (r: Option<Protocol>)
        ensures
            r == protocol_of(encode_utf8(protocol@)),
    {
        let text = protocol.as_bytes();
        let udp: [u8; 3] = [0x75, 0x64, 0x70];
        let tcp: [u8; 3] = [0x74, 0x63, 0x70];
        let doh: [u8; 3] = [0x64, 0x6f, 0x68];
        let dot: [u8; 3] = [0x64, 0x6f, 0x74];
        proof {
            assert(udp@ =~= seq![0x75u8, 0x64, 0x70]);
            assert(tcp@ =~= seq![0x74u8, 0x63, 0x70]);
            assert(doh@ =~= seq![0x64u8, 0x6f, 0x68]);
            assert(dot@ =~= seq![0x64u8, 0x6f, 0x74]);
        }
        if lowered_equals(text, udp.as_slice()) {
            Some(Protocol::UDP)
        } else if lowered_equals(text, tcp.as_slice()) {
            Some(Protocol::TCP)
        } else if lowered_equals(text, doh.as_slice()) {
            Some(Protocol::DOH)
        } else if lowered_equals(text, dot.as_slice()) {
            Some(Protocol::DOT)
        } else {
            None
        }
    }

    /// Whether the transport frames each message with its length: the
    /// stream transports do.
    pub fn length_prefixed(&self) -> (r: bool)
        ensures
            r == (*self == Protocol::TCP || *self == Protocol::DOT),
    {
        match self {
            Protocol::TCP | Protocol::DOT => true,
            Protocol::UDP | Protocol::DOH => false,
        }
    }
}

impl std::str::FromStr for Protocol {
    type Err = String;

    /// The transport that a text names, or for a text that names none the
    /// message that says so: `protocol`, the text, and `not valid`.
    fn from_str(protocol: &str) -> (r: Result<Self, String>)
        ensures
            match r {
                Ok(p) => protocol_of(encode_utf8(protocol@)) == Some(p),
                Err(message) => protocol_of(encode_utf8(protocol@)) is None && message@
                    == "protocol "@ + protocol@ + " not valid"@,
            },
    {
        match Protocol::from_text(protocol) {
            Some(p) => Ok(p),
            None => Err("protocol ".to_owned().concat(protocol).concat(" not valid")),
        }
    }
}

/// The HTTP method of a DNS-over-HTTPS request.
#[derive(Debug, Clone, Copy, PartialEq, Eq, Structural)]
pub enum DoHMethod {
    Get,
    Post,
}

impl Default for DoHMethod {
    fn default() -> (r: Self)
        ensures
            r == DoHMethod::Get,
    {
        DoHMethod::Get
    }
}

/// The method that a text names, whatever the case of its letters.
pub open spec fn method_of(text: Seq<u8>) -> Option<DoHMethod> {
    if lowered(text) == seq![0x70u8, 0x6f, 0x73, 0x74] {
        Some(DoHMethod::Post)
    } else if lowered(text) == seq![0x67u8, 0x65, 0x74] {
        Some(DoHMethod::Get)
    } else {
        None
    }
}

impl DoHMethod {
    /// The method that a text names: `GET` or `POST` in letters of any case.
    pub fn from_text(method: &str) -> (r: Option<DoHMethod>)
        ensures
            r == method_of(encode_utf8(method@)),
    {
        let text = method.as_bytes();
        let post: [u8; 4] = [0x70, 0x6f, 0x73, 0x74];
        let get: [u8; 3] = [0x67, 0x65, 0x74];
        proof {
            assert(post@ =~= seq![0x70u8, 0x6f, 0x73, 0x74]);
            assert(get@ =~= seq![0x67u8, 0x65, 0x74]);
        }
        if lowered_equals(text, post.as_slice()) {
            Some(DoHMethod::Post)
        } else if lowered_equals(text, get.as_slice()) {
            Some(DoHMethod::Get)
        } else {
            None
        }
    }
}

impl std::str::FromStr for DoHMethod {
    type Err = String;

    /// The method that a text names, or for a text that names none the
    /// message that says so: `doh method`, the text, and `not valid`.
    fn from_str(method: &str) -> (r: Result<Self, String>)
        ensures
            match r {
                Ok(m) => method_of(encode_utf8(method@)) == Some(m),
                Err(message) => method_of(encode_utf8(method@)) is None && message@
                    == "doh method "@ + method@ + " not valid"@,
            },
    {
        match DoHMethod::from_text(method) {
            Some(m) => Ok(m),
            None => Err("doh method ".to_owned().concat(method).concat(" not valid")),
        }
    }
}

/// Why the settings of a run are refused.
#[derive(Clone, Copy, Debug, PartialEq, Eq, Structural)]
pub enum ArgumentError {
    /// The domain to ask for is no domain name.
    DomainParse,
    /// The type to ask for is no record type.
    TypeParse,
    /// The query file is not there.
    FileNotFound,
    /// Neither a domain nor a query file is given.
    MissingQuery,
    /// Neither a number of queries nor a time is given at which to stop.
    MissingStopCondition,
    /// The cores to run on cannot be told from the setting.
    CpuMode(CpuModeError),
    /// The output is neither `stdout` nor the name of a JSON or YAML file.
    OutputTarget,
    /// The server is neither an IP address nor a domain name.
    ServerParse,
    /// The source address is no IP address.
    SourceParse,
}

/// Reads the server to ask: an IP address or a domain name.
pub fn parse_server(value: &str) -> (r: Result<String, ArgumentError>)
    ensures
        r is Ok <==> is_ip_address_text(encode_utf8(value@)) || is_domain_name_text(
            encode_utf8(value@),
        ),
        r matches Ok(server) ==> server@ == value@,
        r matches Err(e) ==> e == ArgumentError::ServerParse,
{
    let is_ip = is_ip_address(value.as_bytes());
    let is_domain = is_domain_name(value.as_bytes());
    if is_ip || is_domain {
        Ok(value.to_owned())
    } else {
        Err(ArgumentError::ServerParse)
    }
}

/// Reads the address to send from: an IP address.
pub fn parse_ip(value: &str) -> (r: Result<String, ArgumentError>)
    ensures
        r is Ok <==> is_ip_address_text(encode_utf8(value@)),
        r matches Ok(source) ==> source@ == value@,
        r matches Err(e) ==> e == ArgumentError::SourceParse,
{
    if is_ip_address(value.as_bytes()) {
        Ok(value.to_owned())
    } else {
        Err(ArgumentError::SourceParse)
    }
}

/// The settings of a run.
#[derive(Debug)]
pub struct Argument {
    pub server: String,
    pub port: u16,
    pub file: String,
    pub fileloop: bool,
    pub protocol: Protocol,
    pub qps: u32,
    pub max: u64,
    pub until_stop: u64,
    pub client: usize,
    pub domain: String,
    pub qty: String,
    pub timeout: u64,
    pub packet_id: u16,
    pub doh_server_method: DoHMethod,
    pub doh_server: String,
    pub disable_rd: bool,
    pub enable_cd: bool,
    pub enable_dnssec: bool,
    pub disable_edns: bool,
    pub edns_size: u16,
    pub check_all_message: bool,
    pub debug: bool,
    pub source: String,
    pub bind_cpu: String,
    pub output: String,
    pub output_interval: u64,
}

/// Whether the name of an output is accepted: `stdout`, or a name that ends
/// in `.json` or `.yaml`, in letters of any case.
pub open spec fn output_accepted(target: Seq<u8>) -> bool {
    ||| ends_with(lowered(target), seq![0x2eu8, 0x6a, 0x73, 0x6f, 0x6e])
    ||| ends_with(lowered(target), seq![0x2eu8, 0x79, 0x61, 0x6d, 0x6c])
    ||| lowered(target) == seq![0x73u8, 0x74, 0x64, 0x6f, 0x75, 0x74]
}

/// The first reason, if any, for which settings are refused before the
/// cores are looked at: what is to be asked must be readable, and the run
/// must have an end.
pub open spec fn query_error(a: Argument, file_found: bool) -> Option<ArgumentError> {
    if a.file@.len() == 0 && !is_domain_name_text(encode_utf8(a.domain@)) {
        Some(ArgumentError::DomainParse)
    } else if a.file@.len() == 0 && record_type_of(encode_utf8(a.qty@)) is None {
        Some(ArgumentError::TypeParse)
    } else if a.file@.len() != 0 && !file_found {
        Some(ArgumentError::FileNotFound)
    } else if a.domain@.len() == 0 && a.file@.len() == 0 {
        Some(ArgumentError::MissingQuery)
    } else if a.until_stop == 0 && a.max == 0 {
        Some(ArgumentError::MissingStopCondition)
    } else {
        None
    }
}

/// The verdict on settings, for a machine with the given processors and
/// cores: the first reason for which they are refused, if there is one.
pub open spec fn verdict(
    a: Argument,
    file_found: bool,
    cores: Seq<usize>,
    pick: usize,
) -> Result<(), ArgumentError> {
    match query_error(a, file_found) {
        Some(e) => Err(e),
        None => match selected_cores(encode_utf8(a.bind_cpu@), cores, pick) {
            Err(e) => Err(ArgumentError::CpuMode(e)),
            Ok(_) => if output_accepted(encode_utf8(a.output@)) {
                Ok(())
            } else {
                Err(ArgumentError::OutputTarget)
            },
        },
    }
}

/// The number of sockets per worker after validation: where none is set
/// and the settings pass the first checks, the number of processors.
pub open spec fn validated_client(a: Argument, file_found: bool, cpus: usize) -> usize {
    if query_error(a, file_found) is None && a.client == 0 {
        cpus
    } else {
        a.client
    }
}

impl Clone for Argument {
    fn clone(&self) -> (r: Self)
        ensures
            r == *self,
    {
        Argument {
            server: self.server.clone(),
            port: self.port,
            file: self.file.clone(),
            fileloop: self.fileloop,
            protocol: self.protocol,
            qps: self.qps,
            max: self.max,
            until_stop: self.until_stop,
            client: self.client,
            domain: self.domain.clone(),
            qty: self.qty.clone(),
            timeout: self.timeout,
            packet_id: self.packet_id,
            doh_server_method: self.doh_server_method,
            doh_server: self.doh_server.clone(),
            disable_rd: self.disable_rd,
            enable_cd: self.enable_cd,
            enable_dnssec: self.enable_dnssec,
            disable_edns: self.disable_edns,
            edns_size: self.edns_size,
            check_all_message: self.check_all_message,
            debug: self.debug,
            source: self.source.clone(),
            bind_cpu: self.bind_cpu.clone(),
            output: self.output.clone(),
            output_interval: self.output_interval,
        }
    }
}

impl Default for Argument {
    fn default() -> (r: Self)
        ensures
            r.port == 53,
            r.file@.len() == 0,
            r.protocol == Protocol::UDP,
            r.qps == 10,
            r.max == 100,
            r.until_stop == 0,
            r.client == 1,
            r.timeout == 5,
            r.packet_id == 0,
            r.doh_server_method == DoHMethod::Get,
            !r.fileloop && !r.disable_rd && !r.enable_cd && !r.enable_dnssec && !r.disable_edns
                && !r.check_all_message && !r.debug,
            r.edns_size == 0,
            r.output_interval == 0,
            r.doh_server@.len() == 0,
            r.server@ == "8.8.8.8"@,
            r.domain@ == "google.com"@,
            r.qty@ == "NS"@,
            r.source@ == "0.0.0.0"@,
            r.bind_cpu@ == "random"@,
            r.output@ == "stdout"@,
    {
        Argument {
            server: "8.8.8.8".to_owned(),
            port: 53,
            file: String::new(),
            fileloop: false,
            protocol: Protocol::UDP,
            qps: 10,
            max: 100,
            client: 1,
            domain: "google.com".to_owned(),
            qty: "NS".to_owned(),
            timeout: 5,
            until_stop: 0,
            packet_id: 0,
            doh_server_method: DoHMethod::Get,
            doh_server: String::new(),
            disable_rd: false,
            enable_cd: false,
            enable_dnssec: false,
            disable_edns: false,
            edns_size: 0,
            check_all_message: false,
            debug: false,
            source: "0.0.0.0".to_owned(),
            bind_cpu: "random".to_owned(),
            output: "stdout".to_owned(),
            output_interval: 0,
        }
    }
}

impl Argument {
    fn check_query(&self, file_found: bool) -> (r: Option<ArgumentError>)
        ensures
            r == query_error(*self, file_found),
    {
        if self.file.as_str().is_empty() {
            if !is_domain_name(self.domain.as_str().as_bytes()) {
                return Some(ArgumentError::DomainParse);
            }
            if record_type_from_text(self.qty.as_str().as_bytes()).is_none() {
                return Some(ArgumentError::TypeParse);
            }
        } else if !file_found {
            return Some(ArgumentError::FileNotFound);
        }
        if self.domain.as_str().is_empty() && self.file.as_str().is_empty() {
            return Some(ArgumentError::MissingQuery);
        }
        if self.until_stop == 0 && self.max == 0 {
            return Some(ArgumentError::MissingStopCondition);
        }
        None
    }

    fn output_ok(&self) -> (r: bool)
        ensures
            r == output_accepted(encode_utf8(self.output@)),
    {
        let name = self.output.as_str().as_bytes();
        let json: [u8; 5] = [0x2e, 0x6a, 0x73, 0x6f, 0x6e];
        let yaml: [u8; 5] = [0x2e, 0x79, 0x61, 0x6d, 0x6c];
        let stdout: [u8; 6] = [0x73, 0x74, 0x64, 0x6f, 0x75, 0x74];
        proof {
            assert(json@ =~= seq![0x2eu8, 0x6a, 0x73, 0x6f, 0x6e]);
            assert(yaml@ =~= seq![0x2eu8, 0x79, 0x61, 0x6d, 0x6c]);
            assert(stdout@ =~= seq![0x73u8, 0x74, 0x64, 0x6f, 0x75, 0x74]);
        }
        lowered_ends_with(name, json.as_slice()) || lowered_ends_with(name, yaml.as_slice())
            || lowered_equals(name, stdout.as_slice())
    }

    /// Whether the settings differ at most in the number of sockets.
    pub open spec fn same_but_client(self, other: Argument) -> bool {
        other == (Argument { client: self.client, ..other }) && self == (Argument {
            client: self.client,
            ..other
        })
    }

    /// Checks the settings for a machine with `cpus` processors and the
    /// given cores, `pick` being the core taken where the choice is open,
    /// and `file_found` telling whether the query file is there. A number
    /// of sockets left at 0 becomes the number of processors.
    pub fn validate_with(
        &mut self,
        file_found: bool,
        cpus: usize,
        cores: &Vec<usize>,
        pick: usize,
    ) -> (r: Result<(), ArgumentError>)
        ensures
            r == verdict(*old(self), file_found, cores@, pick),
            *final(self) == (Argument {
                client: validated_client(*old(self), file_found, cpus),
                ..*old(self)
            }),
            old(self).until_stop == 0 && old(self).max == 0 ==> r is Err,
    {
        match self.check_query(file_found) {
            Some(e) => {
                return Err(e);
            },
            None => {},
        }
        if self.client == 0 {
            self.client = cpus;
        }
        match select_cores(self.bind_cpu.as_str().as_bytes(), cores, pick) {
            Err(e) => {
                return Err(ArgumentError::CpuMode(e));
            },
            Ok(_) => {},
        }
        if !self.output_ok() {
            return Err(ArgumentError::OutputTarget);
        }
        Ok(())
    }

    /// Checks the settings for this machine, the core taken where the
    /// choice is open being one of the machine's. `file_found` tells whether
    /// the query file is there.
    pub fn validate(&mut self, file_found: bool) -> (r: Result<(), ArgumentError>)
        ensures
            exists|cores: Seq<usize>, pick: usize, cpus: usize|
                r == #[trigger] verdict(*old(self), file_found, cores, pick) && *final(self) == (
                Argument {
                    client: #[trigger] validated_client(*old(self), file_found, cpus),
                    ..*old(self)
                }) && (cores.len() > 0 ==> cores.contains(pick)),
            old(self).until_stop == 0 && old(self).max == 0 ==> r is Err,
    {
        let cores = available_cores();
        let pick = match choose_core(&cores) {
            Some(c) => c,
            None => 0,
        };
        let cpus = cpu_count();
        self.validate_with(file_found, cpus, &cores, pick)
    }
}

} // verus!
