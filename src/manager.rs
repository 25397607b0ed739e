//! The device manager: which devices were probed, which interrupt each one
//! raises, and what to do with an interrupt claimed from the controller.
use std::collections::HashMap;
use vstd::prelude::*;

verus! {

broadcast use vstd::std_specs::hash::group_hash_axioms;

/// A probed device: its identifier and the interrupt it raises, if any.
#[derive(Debug, Clone, Copy, PartialEq, Eq, Structural)]
pub struct DeviceInfo {
    pub dev_id: usize,
    pub irq: Option<usize>,
}

/// What the interrupt handler does with a claim.
#[derive(Debug, Clone, Copy, PartialEq, Eq, Structural)]
pub enum IrqAction {
    /// Nothing was pending.
    NoInterrupt,
    /// Run device `dev_id`'s handler, then complete `irq` at the controller.
    Dispatch { dev_id: usize, irq: usize },
    /// No device is bound to `irq`: warn and leave it uncompleted.
    Unknown { irq: usize },
}

/// The device that `irq` is bound to once the devices of `devs` were
/// indexed in order: the last one that raises it.
pub open spec fn irq_owner(devs: Seq<DeviceInfo>, irq: usize) -> Option<usize>
    decreases devs.len(),
{
    if devs.len() == 0 {
        None
    } else if devs.last().irq == Some(irq) {
        Some(devs.last().dev_id)
    } else {
        irq_owner(devs.drop_last(), irq)
    }
}

/// The interrupts that the devices of `devs` raise, in order.
pub open spec fn irqs_of(devs: Seq<DeviceInfo>) -> Seq<usize>
    decreases devs.len(),
{
    if devs.len() == 0 {
        Seq::empty()
    } else {
        match devs.last().irq {
            Some(i) => irqs_of(devs.drop_last()).push(i),
            None => irqs_of(devs.drop_last()),
        }
    }
}

/// Probed devices and the interrupt index built from them.
pub struct DeviceManager {
    devices: Vec<DeviceInfo>,
    irq_map: HashMap<usize, usize>,
}

impl DeviceManager {
    pub closed spec fn devices_spec(&self) -> Seq<DeviceInfo> {
        self.devices@
    }

    pub closed spec fn irq_map_spec(&self) -> Map<usize, usize> {
        self.irq_map@
    }

    /// Device identifiers are distinct.
    pub open spec fn wf(&self) -> bool {
        forall|i: int, j: int|
            0 <= i < self.devices_spec().len() && 0 <= j < self.devices_spec().len()
                && #[trigger] self.devices_spec()[i].dev_id == #[trigger] self.devices_spec()[j].dev_id
                ==> i == j
    }

    /// No devices.
    pub fn new() -> (r: Self)
        ensures
            r.wf(),
            r.devices_spec() == Seq::<DeviceInfo>::empty(),
            r.irq_map_spec() == Map::<usize, usize>::empty(),
    {
        DeviceManager { devices: Vec::new(), irq_map: HashMap::new() }
    }

    /// The device with identifier `dev_id`.
    pub fn get(&self, dev_id: usize) -> (r: Option<DeviceInfo>)
        requires
            self.wf(),
        ensures
            r matches Some(d) ==> d.dev_id == dev_id && self.devices_spec().contains(d),
            r is None ==> forall|i: int| 0 <= i < self.devices_spec().len() ==> #[trigger] self.devices_spec()[i].dev_id != dev_id,
    {
        let mut i: usize = 0;
        while i < self.devices.len()
            invariant
                0 <= i <= self.devices_spec().len(),
                forall|j: int| 0 <= j < i ==> #[trigger] self.devices_spec()[j].dev_id != dev_id,
            decreases self.devices_spec().len() - i,
        {
            if self.devices[i].dev_id == dev_id {
                assert(self.devices_spec()[i as int] == self.devices[i as int]);
                return Some(self.devices[i]);
            }
            i = i + 1;
        }
        None
    }

    /// The probed devices, in the order they were added.
    pub fn devices(&self) -> (r: &Vec<DeviceInfo>)
        ensures
            r@ == self.devices_spec(),
    {
        &self.devices
    }

    /// Adds a probed device; one with the same identifier is replaced.
    pub fn add_device(&mut self, dev: DeviceInfo)
        requires
            old(self).wf(),
        ensures
            final(self).wf(),
            final(self).irq_map_spec() == old(self).irq_map_spec(),
            forall|i: int| 0 <= i < old(self).devices_spec().len() && #[trigger] old(self).devices_spec()[i].dev_id == dev.dev_id
                ==> final(self).devices_spec() == old(self).devices_spec().update(i, dev),
            (forall|i: int| 0 <= i < old(self).devices_spec().len() ==> #[trigger] old(self).devices_spec()[i].dev_id != dev.dev_id)
                ==> final(self).devices_spec() == old(self).devices_spec().push(dev),
    {
        let mut i: usize = 0;
        while i < self.devices.len()
            invariant
                0 <= i <= self.devices_spec().len(),
                old(self).wf(),
                self.devices_spec() == old(self).devices_spec(),
                self.irq_map_spec() == old(self).irq_map_spec(),
                forall|j: int| 0 <= j < i ==> #[trigger] self.devices_spec()[j].dev_id != dev.dev_id,
            decreases self.devices_spec().len() - i,
        {
            if self.devices[i].dev_id == dev.dev_id {
                self.devices.set(i, dev);
                proof {
                    let o = old(self).devices_spec();
                    let n = self.devices_spec();
                    assert forall|a: int| 0 <= a < n.len() implies #[trigger] n[a].dev_id == o[a].dev_id by {}
                    assert forall|a: int, b: int| 0 <= a < n.len() && 0 <= b < n.len() && #[trigger] n[a].dev_id == #[trigger] n[b].dev_id implies a == b by {
                        assert(n[a].dev_id == o[a].dev_id);
                        assert(n[b].dev_id == o[b].dev_id);
                    }
                    assert forall|k: int| 0 <= k < o.len() && #[trigger] o[k].dev_id == dev.dev_id implies n == o.update(k, dev) by {
                        assert(o[k].dev_id == o[i as int].dev_id);
                        assert(k == i as int);
                        assert(n =~= o.update(k, dev));
                    }
                }
                return;
            }
            i = i + 1;
        }
        self.devices.push(dev);
        proof {
            let o = old(self).devices_spec();
            let n = self.devices_spec();
            assert forall|a: int, b: int| 0 <= a < n.len() && 0 <= b < n.len() && #[trigger] n[a].dev_id == #[trigger] n[b].dev_id implies a == b by {
                if a < o.len() && b < o.len() {
                    assert(o[a].dev_id == o[b].dev_id);
                } else if a < o.len() {
                    assert(o[a].dev_id != dev.dev_id);
                } else if b < o.len() {
                    assert(o[b].dev_id != dev.dev_id);
                }
            }
        }
    }

    /// Indexes the devices by the interrupt they raise; when several raise
    /// the same one, the last added wins.
    pub fn build_irq_map(&mut self)
        requires
            old(self).wf(),
        ensures
            final(self).wf(),
            final(self).devices_spec() == old(self).devices_spec(),
            forall|irq: usize| #[trigger] final(self).irq_map_spec().contains_key(irq) <==> (irq_owner(old(self).devices_spec(), irq) is Some || old(self).irq_map_spec().contains_key(irq)),
            forall|irq: usize| #[trigger] irq_owner(old(self).devices_spec(), irq) matches Some(d) ==> final(self).irq_map_spec()[irq] == d,
    {
        let mut i: usize = 0;
        while i < self.devices.len()
            invariant
                0 <= i <= self.devices_spec().len(),
                self.devices_spec() == old(self).devices_spec(),
                forall|irq: usize| #[trigger] self.irq_map_spec().contains_key(irq) <==> (irq_owner(self.devices_spec().subrange(0, i as int), irq) is Some || old(self).irq_map_spec().contains_key(irq)),
                forall|irq: usize| #[trigger] irq_owner(self.devices_spec().subrange(0, i as int), irq) matches Some(d) ==> self.irq_map_spec()[irq] == d,
            decreases self.devices_spec().len() - i,
        {
            let d = self.devices[i];
            let ghost pre = self.devices_spec().subrange(0, i as int);
            let ghost cur = self.devices_spec().subrange(0, i + 1);
            let ghost m0 = self.irq_map_spec();
            assert(cur.drop_last() =~= pre);
            assert(cur.last() == d);
            if let Some(irq) = d.irq {
                self.irq_map.insert(irq, d.dev_id);
            }
            proof {
                assert forall|q: usize| #[trigger] self.irq_map_spec().contains_key(q) <==> (irq_owner(cur, q) is Some || old(self).irq_map_spec().contains_key(q)) by {
                    assert(m0.contains_key(q) <==> (irq_owner(pre, q) is Some || old(self).irq_map_spec().contains_key(q)));
                }
                assert forall|q: usize| #[trigger] irq_owner(cur, q) is Some implies self.irq_map_spec()[q] == irq_owner(cur, q)->Some_0 by {
                    if d.irq != Some(q) {
                        assert(irq_owner(cur, q) == irq_owner(pre, q));
                    }
                }
            }
            i = i + 1;
        }
        assert(self.devices_spec().subrange(0, self.devices_spec().len() as int) =~= self.devices_spec());
    }

    /// The interrupts that the devices raise, in the order of the devices;
    /// each is enabled for every hart context.
    pub fn device_irqs(&self) -> (r: Vec<usize>)
        ensures
            r@ == irqs_of(self.devices_spec()),
    {
        let mut r: Vec<usize> = Vec::new();
        let mut i: usize = 0;
        while i < self.devices.len()
            invariant
                0 <= i <= self.devices_spec().len(),
                r@ == irqs_of(self.devices_spec().subrange(0, i as int)),
            decreases self.devices_spec().len() - i,
        {
            assert(self.devices_spec().subrange(0, i + 1).drop_last() =~= self.devices_spec().subrange(0, i as int));
            if let Some(irq) = self.devices[i].irq {
                r.push(irq);
            }
            i = i + 1;
        }
        assert(self.devices_spec().subrange(0, self.devices_spec().len() as int) =~= self.devices_spec());
        r
    }

    /// Decides what to do with the interrupt claimed from the controller
    /// (`None` when nothing was pending): a bound interrupt is dispatched
    /// to its device and then completed; an unknown one is only reported.
    pub fn handle_irq(&self, claimed: Option<usize>) -> (r: IrqAction)
        ensures
            claimed is None ==> r == IrqAction::NoInterrupt,
            claimed matches Some(irq) ==> (if self.irq_map_spec().contains_key(irq) {
                r == (IrqAction::Dispatch { dev_id: self.irq_map_spec()[irq], irq })
            } else {
                r == (IrqAction::Unknown { irq })
            }),
    {
        match claimed {
            None => IrqAction::NoInterrupt,
            Some(irq) => match self.irq_map.get(&irq) {
                Some(d) => IrqAction::Dispatch { dev_id: *d, irq },
                None => IrqAction::Unknown { irq },
            },
        }
    }

    /// The controller context that the current hart claims interrupts in.
    pub fn irq_context(&self) -> (r: usize)
        ensures
            r == 1,
    {
        1
    }
}

} // verus!
