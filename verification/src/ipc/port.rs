//! Message ports.
//!
//! A [`Port`] is a small bounded FIFO of fixed-size [`Message`]s. A
//! send on a full port is refused with [`PortError::Full`], a receive on
//! an empty one with [`PortError::Empty`]; once closed, a port refuses
//! new messages but still hands out the ones already queued. Waiting
//! for room or for a message (yielding between polls) is the caller's
//! loop, driven by the results here.
//!
//! Ports are kept in a [`Registry`] that indexes them by id and by name.

use std::collections::VecDeque;
use vstd::prelude::*;

verus! {

/// Messages a port holds at most.
pub const PORT_CAPACITY: usize = 32;

/// Bytes of inline payload a message carries at most.
pub const MSG_PAYLOAD: usize = 64;

#[derive(Clone, Copy, Debug, PartialEq, Eq, Structural)]
pub enum PortError {
    Full,
    Empty,
    Closed,
}

/// Fixed-size message: a tag, 8 64-bit words and up to 64 payload bytes.
#[derive(Clone, Copy, Debug)]
pub struct Message {
    pub tag: u64,
    pub words: [u64; 8],
    pub payload: [u8; 64],
    pub payload_len: u8,
}

impl Message {
    /// A message with the given tag and everything else zero.
    pub fn new(tag: u64) -> (m: Self)
        ensures
            m.tag == tag,
            m.words@ == Seq::new(8, |i: int| 0u64),
            m.payload@ == Seq::new(64, |i: int| 0u8),
            m.payload_len == 0,
    {
        let m = Message { tag, words: [0u64; 8], payload: [0u8; 64], payload_len: 0 };
        proof {
            assert(m.words@ =~= Seq::new(8, |i: int| 0u64));
            assert(m.payload@ =~= Seq::new(64, |i: int| 0u8));
        }
        m
    }

    /// A message carrying the first `min(bytes.len(), 64)` bytes of
    /// `bytes` as payload (the rest of the payload is zero).
    pub fn with_payload(tag: u64, bytes: &[u8]) -> (m: Self)
        ensures
            m.tag == tag,
            m.words@ == Seq::new(8, |i: int| 0u64),
            m.payload_len as int == (if bytes@.len() < 64 {
                bytes@.len() as int
            } else {
                64
            }),
            forall|i: int| 0 <= i < m.payload_len ==> #[trigger] m.payload@[i] == bytes@[i],
            forall|i: int| m.payload_len <= i < 64 ==> #[trigger] m.payload@[i] == 0,
    {
        let mut m = Self::new(tag);
        let n = if bytes.len() < MSG_PAYLOAD {
            bytes.len()
        } else {
            MSG_PAYLOAD
        };
        let mut i: usize = 0;
        while i < n
            invariant
                n <= 64,
                n <= bytes@.len(),
                i <= n,
                m.tag == tag,
                m.payload_len == 0,
                m.words@ == Seq::new(8, |k: int| 0u64),
                forall|k: int| 0 <= k < i ==> #[trigger] m.payload@[k] == bytes@[k],
                forall|k: int| i <= k < 64 ==> #[trigger] m.payload@[k] == 0,
            decreases n - i,
        {
            m.payload[i] = bytes[i];
            i = i + 1;
        }
        m.payload_len = n as u8;
        m
    }
}

/// A bounded FIFO of messages with an id and a name.
pub struct Port {
    pub id: u64,
    pub name: String,
    queue: VecDeque<Message>,
    closed: bool,
}

/// Allocator of port ids: 1, 2, 3, ... (wrapping).
pub struct PortIdAllocator {
    pub next: u64,
}

impl PortIdAllocator {
    /// A fresh allocator; the first id it hands out is 1.
    pub fn new() -> (a: Self)
        ensures
            a.next == 1,
    {
        PortIdAllocator { next: 1 }
    }

    /// Hand out the next id.
    pub fn alloc_port_id(&mut self) -> (id: u64)
        ensures
            id == old(self).next,
            final(self).next == (if old(self).next == u64::MAX {
                0
            } else {
                (old(self).next + 1) as u64
            }),
    {
        let id = self.next;
        self.next = self.next.wrapping_add(1);
        id
    }
}

/// A port as mathematical values.
#[verifier::ext_equal]
pub struct PortModel {
    pub id: u64,
    pub name: Seq<char>,
    /// Queued messages, oldest first.
    pub queue: Seq<Message>,
    pub closed: bool,
}

/// What a send does to a port: refused with `Closed` on a closed port,
/// with `Full` on a full one (the port unchanged either way), otherwise
/// the message joins the back of the queue.
pub open spec fn send_spec(p: PortModel, msg: Message) -> (PortModel, Result<(), PortError>) {
    if p.closed {
        (p, Err(PortError::Closed))
    } else if p.queue.len() >= PORT_CAPACITY {
        (p, Err(PortError::Full))
    } else {
        (PortModel { queue: p.queue.push(msg), ..p }, Ok(()))
    }
}

/// What a receive does to a port: the oldest message leaves the queue
/// and is returned; an empty port answers `Closed` if it is closed and
/// `Empty` otherwise, and stays as it is.
pub open spec fn recv_spec(p: PortModel) -> (PortModel, Result<Message, PortError>) {
    if p.queue.len() > 0 {
        (PortModel { queue: p.queue.drop_first(), ..p }, Ok(p.queue[0]))
    } else {
        (p, Err(if p.closed {
            PortError::Closed
        } else {
            PortError::Empty
        }))
    }
}

/// A port after [`Port::close`]: the same port, marked closed.
pub open spec fn close_spec(p: PortModel) -> PortModel {
    PortModel { closed: true, ..p }
}

impl View for Port {
    type V = PortModel;

    closed spec fn view(&self) -> PortModel {
        PortModel { id: self.id, name: self.name@, queue: self.queue@, closed: self.closed }
    }
}

impl Port {
    /// Invariant: never more than [`PORT_CAPACITY`] messages.
    pub open spec fn wf(&self) -> bool {
        self@.queue.len() <= PORT_CAPACITY
    }

    /// An open, empty port named `name` with the next id from `ids`.
    pub fn new(name: &str, ids: &mut PortIdAllocator) -> (p: Self)
        ensures
            p.wf(),
            p@.id == old(ids).next,
            p@.name == name@,
            p@.queue == Seq::<Message>::empty(),
            !p@.closed,
            final(ids).next == (if old(ids).next == u64::MAX {
                0
            } else {
                (old(ids).next + 1) as u64
            }),
    {
        let id = ids.alloc_port_id();
        Port { id, name: name.to_owned(), queue: VecDeque::with_capacity(PORT_CAPACITY), closed: false }
    }

    /// Append `msg` unless the port is closed (`Closed`) or full (`Full`).
    pub fn try_send(&mut self, msg: Message) -> (r: Result<(), PortError>)
        requires
            old(self).wf(),
        ensures
            final(self).wf(),
            final(self)@ == send_spec(old(self)@, msg).0,
            r == send_spec(old(self)@, msg).1,
    {
        if self.closed {
            return Err(PortError::Closed);
        }
        if self.queue.len() >= PORT_CAPACITY {
            return Err(PortError::Full);
        }
        self.queue.push_back(msg);
        Ok(())
    }

    /// Take the oldest message; `Closed` when the port is closed and
    /// drained, `Empty` when it is open and empty.
    pub fn try_recv(&mut self) -> (r: Result<Message, PortError>)
        requires
            old(self).wf(),
        ensures
            final(self).wf(),
            final(self)@ == recv_spec(old(self)@).0,
            r == recv_spec(old(self)@).1,
    {
        match self.queue.pop_front() {
            Some(m) => {
                proof {
                    assert(self.queue@ =~= old(self).queue@.drop_first());
                }
                Ok(m)
            },
            None => if self.closed {
                Err(PortError::Closed)
            } else {
                Err(PortError::Empty)
            },
        }
    }

    /// One poll of a blocking receive: `None` means "nothing yet; yield
    /// the CPU and poll again"; otherwise the outcome of the receive.
    pub fn recv(&mut self) -> (r: Option<Result<Message, PortError>>)
        requires
            old(self).wf(),
        ensures
            final(self).wf(),
            final(self)@ == recv_spec(old(self)@).0,
            r == (if recv_spec(old(self)@).1 == Err::<Message, PortError>(PortError::Empty) {
                None
            } else {
                Some(recv_spec(old(self)@).1)
            }),
    {
        match self.try_recv() {
            Ok(m) => Some(Ok(m)),
            Err(PortError::Empty) => None,
            Err(e) => Some(Err(e)),
        }
    }

    /// Send once; a `Full` result tells the caller to yield before trying
    /// again. Same outcome as [`Port::try_send`].
    pub fn send(&mut self, msg: Message) -> (r: Result<(), PortError>)
        requires
            old(self).wf(),
        ensures
            final(self).wf(),
            final(self)@ == send_spec(old(self)@, msg).0,
            r == send_spec(old(self)@, msg).1,
    {
        self.try_send(msg)
    }

    /// Close the port: later sends fail, queued messages stay receivable.
    pub fn close(&mut self)
        requires
            old(self).wf(),
        ensures
            final(self).wf(),
            final(self)@ == close_spec(old(self)@),
    {
        self.closed = true;
    }

    /// Number of queued messages.
    pub fn pending(&self) -> (n: usize)
        ensures
            n == self@.queue.len(),
    {
        self.queue.len()
    }
}

/// Every port known to the kernel, by id and by name.
pub struct Registry {
    /// Registered ports, in increasing id order.
    ports: Vec<Port>,
}

impl Registry {
    /// The registered ports, in increasing id order.
    pub closed spec fn ports_spec(&self) -> Seq<Port> {
        self.ports@
    }

    /// Invariant: ids strictly increasing, names pairwise distinct,
    /// every port within capacity.
    pub open spec fn wf(&self) -> bool {
        let p = self.ports_spec();
        &&& forall|i: int, j: int| 0 <= i < j < p.len() ==> #[trigger] p[i]@.id < #[trigger] p[j]@.id
        &&& forall|i: int, j: int|
            0 <= i < p.len() && 0 <= j < p.len() && i != j ==> #[trigger] p[i]@.name
                != #[trigger] p[j]@.name
        &&& forall|i: int| 0 <= i < p.len() ==> #[trigger] p[i].wf()
    }

    /// Whether a port with this id is registered.
    pub open spec fn has_id(&self, id: u64) -> bool {
        exists|i: int| 0 <= i < self.ports_spec().len() && #[trigger] self.ports_spec()[i]@.id == id
    }

    /// Whether a port with this name is registered.
    pub open spec fn has_name(&self, name: Seq<char>) -> bool {
        exists|i: int|
            0 <= i < self.ports_spec().len() && #[trigger] self.ports_spec()[i]@.name == name
    }

    pub fn new() -> (r: Self)
        ensures
            r.wf(),
            r.ports_spec() == Seq::<Port>::empty(),
    {
        Registry { ports: Vec::new() }
    }

    /// Index of the port named `name`, if registered.
    fn find_name(&self, name: &String) -> (r: Option<usize>)
        requires
            self.wf(),
        ensures
            match r {
                Some(i) => i < self.ports_spec().len() && self.ports_spec()[i as int]@.name
                    == name@,
                None => !self.has_name(name@),
            },
    {
        let mut i: usize = 0;
        while i < self.ports.len()
            invariant
                i <= self.ports@.len(),
                forall|k: int| 0 <= k < i ==> #[trigger] self.ports@[k]@.name != name@,
            decreases self.ports.len() - i,
        {
            if self.ports[i].name == *name {
                return Some(i);
            }
            i = i + 1;
        }
        None
    }

    /// Index of the port with id `id`, if registered.
    fn find_id(&self, id: u64) -> (r: Option<usize>)
        requires
            self.wf(),
        ensures
            match r {
                Some(i) => i < self.ports_spec().len() && self.ports_spec()[i as int]@.id == id,
                None => !self.has_id(id),
            },
    {
        let mut i: usize = 0;
        while i < self.ports.len()
            invariant
                i <= self.ports@.len(),
                forall|k: int| 0 <= k < i ==> #[trigger] self.ports@[k]@.id != id,
            decreases self.ports.len() - i,
        {
            if self.ports[i].id == id {
                return Some(i);
            }
            i = i + 1;
        }
        None
    }
}

/// What [`register`] leaves: registry `new` after offering `port` to
/// registry `old`, answered `r`. The port is taken (inserted where its
/// id keeps the ids increasing) exactly when neither its id nor its
/// name is registered yet; otherwise nothing changes.
pub open spec fn registered(old: Registry, new: Registry, port: Port, r: bool) -> bool {
    &&& new.wf()
    &&& r == !(old.has_id(port@.id) || old.has_name(port@.name))
    &&& !r ==> new.ports_spec() == old.ports_spec()
    &&& r ==> exists|pos: int|
        0 <= pos <= old.ports_spec().len() && new.ports_spec() == old.ports_spec().insert(pos, port)
}

/// Add `port`; refused (`false`, nothing changed) when its id or its
/// name is already registered.
pub fn register(reg: &mut Registry, port: Port) -> (r: bool)
    requires
        old(reg).wf(),
        port.wf(),
    ensures
        registered(*old(reg), *final(reg), port, r),
        r ==> final(reg).has_id(port@.id) && final(reg).has_name(port@.name),
{
    if reg.find_id(port.id).is_some() {
        return false;
    }
    let name = port.name.clone();
    if reg.find_name(&name).is_some() {
        return false;
    }
    let mut pos: usize = 0;
    while pos < reg.ports.len() && reg.ports[pos].id < port.id
        invariant
            pos <= reg.ports@.len(),
            forall|k: int| 0 <= k < pos ==> #[trigger] reg.ports@[k]@.id < port@.id,
        decreases reg.ports.len() - pos,
    {
        pos = pos + 1;
    }
    let ghost old_ports = reg.ports@;
    let ghost pid = port.id;
    let ghost pname = port.name@;
    let ghost p2 = port;
    reg.ports.insert(pos, port);
    proof {
        let p = reg.ports@;
        assert(p == old_ports.insert(pos as int, p2));
        assert(!old(reg).has_id(pid));
        assert(old_ports == old(reg).ports_spec());
        if pos < old_ports.len() {
            assert(old_ports[pos as int]@.id >= pid);
            assert(old(reg).ports_spec()[pos as int]@.id != pid);
        }
        assert forall|i: int, j: int| 0 <= i < j < p.len() implies #[trigger] p[i]@.id
            < #[trigger] p[j]@.id by {
            if j < pos {
            } else if j == pos {
                assert(old_ports[i]@.id < pid);
            } else if i < pos {
                assert(p[j] == old_ports[j - 1]);
                assert(old(reg).ports_spec()[i]@.id < old(reg).ports_spec()[j - 1]@.id || i == j - 1);
            } else if i == pos {
                assert(p[j] == old_ports[j - 1]);
                if j - 1 > pos {
                    assert(old_ports[pos as int]@.id < old_ports[j - 1]@.id);
                }
            } else {
                assert(p[i] == old_ports[i - 1] && p[j] == old_ports[j - 1]);
            }
        }
        assert forall|i: int, j: int|
            0 <= i < p.len() && 0 <= j < p.len() && i != j implies #[trigger] p[i]@.name
            != #[trigger] p[j]@.name by {
            let oi = if i < pos {
                i
            } else {
                i - 1
            };
            let oj = if j < pos {
                j
            } else {
                j - 1
            };
            if i == pos {
                assert(p[j] == old_ports[oj]);
            } else if j == pos {
                assert(p[i] == old_ports[oi]);
            } else {
                assert(p[i] == old_ports[oi] && p[j] == old_ports[oj]);
            }
        }
        assert forall|i: int| 0 <= i < p.len() implies #[trigger] p[i].wf() by {
            if i != pos {
                let oi = if i < pos {
                    i
                } else {
                    i - 1
                };
                assert(p[i] == old_ports[oi]);
            }
        }
        assert(p[pos as int] == p2);
    }
    true
}

/// The port with id `id`.
pub fn get(reg: &Registry, id: u64) -> (r: Option<&Port>)
    requires
        reg.wf(),
    ensures
        r is None <==> !reg.has_id(id),
        r matches Some(p) ==> p@.id == id && reg.ports_spec().contains(*p),
{
    match reg.find_id(id) {
        Some(i) => Some(&reg.ports[i]),
        None => None,
    }
}

/// The port with id `id`, for sending and receiving.
pub fn get_mut(reg: &mut Registry, id: u64) -> (r: Option<&mut Port>)
    requires
        old(reg).wf(),
    ensures
        r is None <==> !old(reg).has_id(id),
        r is None ==> final(reg).ports_spec() == old(reg).ports_spec(),
        r matches Some(p) ==> {
            let i = choose|i: int|
                0 <= i < old(reg).ports_spec().len() && old(reg).ports_spec()[i]@.id == id;
            &&& *p == old(reg).ports_spec()[i]
            &&& final(reg).ports_spec() == old(reg).ports_spec().update(i, *final(p))
        },
{
    match reg.find_id(id) {
        Some(i) => {
            proof {
                let j = choose|j: int|
                    0 <= j < reg.ports@.len() && reg.ports@[j]@.id == id;
                if j != i as int {
                    if j < i {
                        assert(reg.ports@[j]@.id < reg.ports@[i as int]@.id);
                    } else {
                        assert(reg.ports@[i as int]@.id < reg.ports@[j]@.id);
                    }
                }
            }
            Some(&mut reg.ports[i])
        },
        None => None,
    }
}

/// The port named `name`.
pub fn lookup<'a>(reg: &'a Registry, name: &str) -> (r: Option<&'a Port>)
    requires
        reg.wf(),
    ensures
        r is None <==> !reg.has_name(name@),
        r matches Some(p) ==> p@.name == name@ && reg.ports_spec().contains(*p),
{
    let key = name.to_owned();
    match reg.find_name(&key) {
        Some(i) => Some(&reg.ports[i]),
        None => None,
    }
}

/// What [`create`] leaves: registry `new` and allocator `new_ids` after
/// asking for the port named `name` in registry `old` with allocator
/// `old_ids`, answered with `id`. A port created here is open and
/// empty.
pub open spec fn created(old: Registry, new: Registry, name: Seq<char>, old_ids: PortIdAllocator, new_ids: PortIdAllocator, id: u64) -> bool {
    &&& new.wf()
    &&& old.has_name(name) ==> new.ports_spec() == old.ports_spec() && new_ids.next == old_ids.next
        && exists|i: int|
        0 <= i < old.ports_spec().len() && old.ports_spec()[i]@.name == name && old.ports_spec()[i]@.id == id
    &&& !old.has_name(name) ==> id == old_ids.next && new_ids.next == (if old_ids.next == u64::MAX {
        0
    } else {
        (old_ids.next + 1) as u64
    }) && (old.has_id(id) ==> new.ports_spec() == old.ports_spec()) && (!old.has_id(id)
        ==> exists|i: int|
        0 <= i < new.ports_spec().len() && new.ports_spec()[i]@ == (PortModel {
            id,
            name,
            queue: Seq::empty(),
            closed: false,
        }))
}

/// The port named `name`, creating and registering it (with the next
/// id from `ids`) when there is none. Returns its id.
pub fn create(reg: &mut Registry, name: &str, ids: &mut PortIdAllocator) -> (id: u64)
    requires
        old(reg).wf(),
    ensures
        created(*old(reg), *final(reg), name@, *old(ids), *final(ids), id),
{
    match lookup(reg, name) {
        Some(p) => {
            return p.id;
        },
        None => {},
    }
    let port = Port::new(name, ids);
    let id = port.id;
    let ghost p = port;
    let ok = register(reg, port);
    proof {
        if ok {
            let pos = choose|pos: int|
                0 <= pos <= old(reg).ports_spec().len() && reg.ports_spec() == old(
                    reg,
                ).ports_spec().insert(pos, p);
            assert(reg.ports_spec()[pos] == p);
        }
    }
    id
}

/// `(id, name, pending)` of every port, in increasing id order.
pub fn list(reg: &Registry) -> (r: Vec<(u64, String, usize)>)
    requires
        reg.wf(),
    ensures
        r@.len() == reg.ports_spec().len(),
        forall|i: int|
            0 <= i < r@.len() ==> #[trigger] r@[i].0 == reg.ports_spec()[i]@.id && r@[i].1@
                == reg.ports_spec()[i]@.name && r@[i].2 == reg.ports_spec()[i]@.queue.len(),
{
    let mut out: Vec<(u64, String, usize)> = Vec::new();
    let mut i: usize = 0;
    while i < reg.ports.len()
        invariant
            i <= reg.ports@.len(),
            out@.len() == i,
            forall|k: int|
                0 <= k < i ==> #[trigger] out@[k].0 == reg.ports@[k]@.id && out@[k].1@
                    == reg.ports@[k]@.name && out@[k].2 == reg.ports@[k]@.queue.len(),
        decreases reg.ports.len() - i,
    {
        let p = &reg.ports[i];
        out.push((p.id, p.name.clone(), p.pending()));
        i = i + 1;
    }
    out
}

/// One-time IPC set-up: the `kernel` port.
pub fn init(reg: &mut Registry, ids: &mut PortIdAllocator) -> (id: u64)
    requires
        old(reg).wf(),
    ensures
        created(*old(reg), *final(reg), "kernel"@, *old(ids), *final(ids), id),
{
    create(reg, "kernel", ids)
}

/// A registered port is the one found under its id and under its name:
/// no other registered port shares either.
pub proof fn law_registered_port_found(old: Registry, new: Registry, port: Port)
    requires
        old.wf(),
        registered(old, new, port, true),
    ensures
        new.has_id(port@.id),
        new.has_name(port@.name),
        forall|i: int|
            0 <= i < new.ports_spec().len() && #[trigger] new.ports_spec()[i]@.id == port@.id
                ==> new.ports_spec()[i] == port,
        forall|i: int|
            0 <= i < new.ports_spec().len() && #[trigger] new.ports_spec()[i]@.name == port@.name
                ==> new.ports_spec()[i] == port,
{
    let pos = choose|pos: int|
        0 <= pos <= old.ports_spec().len() && new.ports_spec() == old.ports_spec().insert(pos, port);
    let q = new.ports_spec();
    assert(q[pos] == port);
    assert forall|i: int| 0 <= i < q.len() && #[trigger] q[i]@.id == port@.id implies q[i] == port by {
        if i < pos {
            assert(q[i]@.id < q[pos]@.id);
        } else if i > pos {
            assert(q[pos]@.id < q[i]@.id);
        }
    }
    assert forall|i: int| 0 <= i < q.len() && #[trigger] q[i]@.name == port@.name implies q[i] == port by {
        if i != pos {
            assert(q[i]@.name != q[pos]@.name);
        }
    }
}

/// Asking for a port by name: when one by that name is registered, the
/// answer is its id and nothing changes; otherwise (unless its fresh id
/// is already taken) the answer is the fresh id, and the port found
/// afterwards under that id or under that name is the new one, open and
/// empty.
pub proof fn law_create_then_found(
    r0: Registry,
    r1: Registry,
    name: Seq<char>,
    a0: PortIdAllocator,
    a1: PortIdAllocator,
    id: u64,
)
    requires
        r0.wf(),
        created(r0, r1, name, a0, a1, id),
    ensures
        r0.has_name(name) ==> {
            &&& r1.ports_spec() == r0.ports_spec()
            &&& a1.next == a0.next
            &&& forall|i: int|
                0 <= i < r0.ports_spec().len() && #[trigger] r0.ports_spec()[i]@.name == name ==> r0.ports_spec()[i]@.id
                    == id
        },
        !r0.has_name(name) && !r0.has_id(a0.next) ==> {
            &&& id == a0.next
            &&& r1.has_id(id)
            &&& r1.has_name(name)
            &&& forall|i: int|
                0 <= i < r1.ports_spec().len() && (#[trigger] r1.ports_spec()[i]@.id == id || r1.ports_spec()[i]@.name
                    == name) ==> r1.ports_spec()[i]@ == (PortModel { id, name, queue: Seq::empty(), closed: false })
        },
{
    if r0.has_name(name) {
        let q = r0.ports_spec();
        let k = choose|k: int| 0 <= k < q.len() && q[k]@.name == name && q[k]@.id == id;
        assert forall|i: int| 0 <= i < q.len() && #[trigger] q[i]@.name == name implies q[i]@.id == id by {
            if i != k {
                assert(q[i]@.name != q[k]@.name);
            }
        }
    } else if !r0.has_id(a0.next) {
        let q = r1.ports_spec();
        let k = choose|k: int| 0 <= k < q.len() && q[k]@ == (PortModel { id, name, queue: Seq::empty(), closed: false });
        assert(q[k]@.id == id);
        assert(q[k]@.name == name);
        assert forall|i: int| 0 <= i < q.len() && (#[trigger] q[i]@.id == id || q[i]@.name == name) implies q[i]@
            == (PortModel { id, name, queue: Seq::empty(), closed: false }) by {
            if i < k {
                assert(q[i]@.id < q[k]@.id);
                assert(q[i]@.name != q[k]@.name);
            } else if i > k {
                assert(q[k]@.id < q[i]@.id);
                assert(q[i]@.name != q[k]@.name);
            }
        }
    }
}

/// Asking twice for the port named `name` creates it at most once: the
/// second request returns the same id and changes neither the registry
/// nor the id allocator. (Left out: a first request whose fresh id is
/// already taken, which registers nothing.)
pub proof fn law_create_idempotent(
    r0: Registry,
    r1: Registry,
    r2: Registry,
    name: Seq<char>,
    a0: PortIdAllocator,
    a1: PortIdAllocator,
    a2: PortIdAllocator,
    id1: u64,
    id2: u64,
)
    requires
        r0.wf(),
        created(r0, r1, name, a0, a1, id1),
        created(r1, r2, name, a1, a2, id2),
        r0.has_name(name) || !r0.has_id(a0.next),
    ensures
        id2 == id1,
        r2.ports_spec() == r1.ports_spec(),
        a2.next == a1.next,
{
    let q = r1.ports_spec();
    let i = choose|i: int| 0 <= i < q.len() && q[i]@.name == name && q[i]@.id == id1;
    assert(r1.has_name(name));
    let j = choose|j: int| 0 <= j < q.len() && q[j]@.name == name && q[j]@.id == id2;
    if i != j {
        assert(q[i]@.name != q[j]@.name);
    }
}

/// First in, first out: on an open port with room, a receive right
/// after a send hands out the oldest queued message, or the one just
/// sent when the port was empty, and the sent message stays behind the
/// others.
pub proof fn law_port_fifo(p: PortModel, msg: Message)
    requires
        !p.closed,
        p.queue.len() < PORT_CAPACITY,
    ensures
        send_spec(p, msg).1 is Ok,
        recv_spec(send_spec(p, msg).0).1 == Ok::<Message, PortError>(
            if p.queue.len() == 0 {
                msg
            } else {
                p.queue[0]
            },
        ),
        recv_spec(send_spec(p, msg).0).0.queue == (if p.queue.len() == 0 {
            p.queue
        } else {
            p.queue.drop_first().push(msg)
        }),
{
    let q1 = p.queue.push(msg);
    if p.queue.len() == 0 {
        assert(q1.drop_first() =~= p.queue);
    } else {
        assert(q1.drop_first() =~= p.queue.drop_first().push(msg));
    }
}

/// Round trip: on an open, empty port, a send followed by a receive
/// hands the message back and leaves the port as it was.
pub proof fn law_port_round_trip(p: PortModel, msg: Message)
    requires
        !p.closed,
        p.queue.len() == 0,
    ensures
        send_spec(p, msg).1 is Ok,
        recv_spec(send_spec(p, msg).0) == (p, Ok::<Message, PortError>(msg)),
{
    assert(p.queue.push(msg).drop_first() =~= p.queue);
    assert(recv_spec(send_spec(p, msg).0).0 =~= p);
}

/// Closing keeps what is queued: a closed port refuses every send with
/// `Closed` and stays unchanged, and its receives hand out the messages
/// queued before the close, in order; once it is drained a receive
/// answers `Closed`.
pub proof fn law_close_drains(p: PortModel, msg: Message)
    ensures
        send_spec(close_spec(p), msg) == (close_spec(p), Err::<(), PortError>(PortError::Closed)),
        p.queue.len() > 0 ==> recv_spec(close_spec(p)) == (
            close_spec(recv_spec(p).0),
            recv_spec(p).1,
        ),
        p.queue.len() == 0 ==> recv_spec(close_spec(p)) == (
            close_spec(p),
            Err::<Message, PortError>(PortError::Closed),
        ),
{
    if p.queue.len() > 0 {
        assert(recv_spec(close_spec(p)).0 =~= close_spec(recv_spec(p).0));
    }
}

} // verus!
