use vstd::prelude::*;

verus! {

/// Restrictions on where connections to a tunnel may come from.
#[derive(Clone, Default, Debug)]
pub struct CidrRestrictions {
    /// Connections that match none of these are rejected.
    pub allowed: Vec<String>,
    /// Connections that match one of these are rejected.
    pub denied: Vec<String>,
}

/// The wire form of CIDR restrictions.
#[derive(Clone, Default, Debug)]
pub struct IpRestriction {
    pub allow_cidrs: Vec<String>,
    pub deny_cidrs: Vec<String>,
}

fn copy_strings(v: &Vec<String>) -> (r: Vec<String>)
    ensures
        r@ == v@,
{
    let mut r: Vec<String> = Vec::with_capacity(v.len());
    let mut i: usize = 0;
    while i < v.len()
        invariant
            i <= v@.len(),
            r@ == v@.take(i as int),
        decreases v@.len() - i,
    {
        r.push(v[i].clone());
        i = i + 1;
        assert(r@ =~= v@.take(i as int));
    }
    assert(v@.take(v@.len() as int) =~= v@);
    r
}

impl CidrRestrictions {
    pub fn new() -> (r: CidrRestrictions)
        ensures
            r.allowed@.len() == 0,
            r.denied@.len() == 0,
    {
        CidrRestrictions { allowed: Vec::new(), denied: Vec::new() }
    }

    /// Allows connections from `cidr`.
    pub fn allow(&mut self, cidr: String)
        ensures
            final(self).allowed@ == old(self).allowed@.push(cidr),
            final(self).denied@ == old(self).denied@,
    {
        self.allowed.push(cidr);
    }

    /// Rejects connections from `cidr`.
    pub fn deny(&mut self, cidr: String)
        ensures
            final(self).denied@ == old(self).denied@.push(cidr),
            final(self).allowed@ == old(self).allowed@,
    {
        self.denied.push(cidr);
    }

    /// The wire form: the same lists.
    pub fn to_ip_restriction(&self) -> (r: IpRestriction)
        ensures
            r.allow_cidrs@ == self.allowed@,
            r.deny_cidrs@ == self.denied@,
    {
        IpRestriction { allow_cidrs: copy_strings(&self.allowed), deny_cidrs: copy_strings(&self.denied) }
    }
}

/// Options every tunnel has.
#[derive(Default, Debug)]
pub struct CommonOpts {
    /// Where connections may come from.
    pub cidr_restrictions: CidrRestrictions,
    /// Opaque metadata for the tunnel.
    pub metadata: Option<String>,
    /// What the tunnel forwards to, for display.
    pub forwards_to: Option<String>,
}

impl CommonOpts {
    /// The restrictions in wire form, or `None` where both lists are empty.
    pub fn ip_restriction(&self) -> (r: Option<IpRestriction>)
        ensures
            match r {
                Some(ip) => {
                    &&& (self.cidr_restrictions.allowed@.len() > 0
                        || self.cidr_restrictions.denied@.len() > 0)
                    &&& ip.allow_cidrs@ == self.cidr_restrictions.allowed@
                    &&& ip.deny_cidrs@ == self.cidr_restrictions.denied@
                },
                None => self.cidr_restrictions.allowed@.len() == 0
                    && self.cidr_restrictions.denied@.len() == 0,
            },
    {
        if self.cidr_restrictions.allowed.len() > 0 || self.cidr_restrictions.denied.len() > 0 {
            Some(self.cidr_restrictions.to_ip_restriction())
        } else {
            None
        }
    }
}

/// Why connecting a tunnel session failed.
#[derive(Clone, Debug, PartialEq, Eq)]
pub enum ConnectError {
    /// The heartbeat interval, in nanoseconds, does not fit an i64.
    InvalidHeartbeatInterval(u128),
    /// The heartbeat tolerance, in nanoseconds, does not fit an i64.
    InvalidHeartbeatTolerance(u128),
    /// The TCP connection failed.
    Tcp(String),
    /// The TLS handshake failed.
    Tls(String),
    /// Starting the session failed.
    Start(String),
    /// Authentication failed.
    Auth(String),
}

/// The heartbeat interval and tolerance as the signed nanosecond counts the
/// server takes; a value beyond `i64::MAX` is refused, the interval first.
pub fn heartbeat_nanos(interval: u128, tolerance: u128) -> (r: Result<(i64, i64), ConnectError>)
    ensures
        interval > i64::MAX ==> r == Err::<(i64, i64), ConnectError>(
            ConnectError::InvalidHeartbeatInterval(interval),
        ),
        interval <= i64::MAX && tolerance > i64::MAX ==> r == Err::<(i64, i64), ConnectError>(
            ConnectError::InvalidHeartbeatTolerance(tolerance),
        ),
        interval <= i64::MAX && tolerance <= i64::MAX ==> r == Ok::<(i64, i64), ConnectError>(
            (interval as i64, tolerance as i64),
        ),
{
    if interval > i64::MAX as u128 {
        return Err(ConnectError::InvalidHeartbeatInterval(interval));
    }
    if tolerance > i64::MAX as u128 {
        return Err(ConnectError::InvalidHeartbeatTolerance(tolerance));
    }
    Ok((interval as i64, tolerance as i64))
}

} // verus!
