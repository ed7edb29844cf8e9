//! A device's definition and the builder that assembles it.

use vstd::prelude::*;
use vstd::string::*;

use crate::types::{is_empty_identity, DeviceCapabilities, DeviceIdentity, EventDef, FunctionDef};

verus! {

/// A device type together with what devices of that type can do.
#[derive(Clone, Debug)]
pub struct DeviceDefinition {
    pub device_type: String,
    pub capabilities: DeviceCapabilities,
}

/// Collects the parts of a [`DeviceDefinition`].
pub struct DeviceDefinitionBuilder {
    device_type: String,
    description: String,
    functions: Vec<FunctionDef>,
    events: Vec<EventDef>,
}

impl DeviceDefinition {
    /// A builder for a device of the given type, with no description,
    /// functions or events yet.
    pub fn builder(device_type: &str) -> (r: DeviceDefinitionBuilder)
        ensures
            r.device_type_view() == device_type@,
            r.description_view() == Seq::<char>::empty(),
            r.functions_view().len() == 0,
            r.events_view().len() == 0,
    {
        DeviceDefinitionBuilder {
            device_type: device_type.to_string(),
            description: String::new(),
            functions: Vec::new(),
            events: Vec::new(),
        }
    }
}

impl DeviceDefinitionBuilder {
    pub closed spec fn device_type_view(&self) -> Seq<char> {
        self.device_type@
    }

    pub closed spec fn description_view(&self) -> Seq<char> {
        self.description@
    }

    /// The functions added so far, in the order they were added.
    pub closed spec fn functions_view(&self) -> Seq<FunctionDef> {
        self.functions@
    }

    /// The events added so far, in the order they were added.
    pub closed spec fn events_view(&self) -> Seq<EventDef> {
        self.events@
    }

    /// Sets the description.
    pub fn description(self, description: &str) -> (r: Self)
        ensures
            r.description_view() == description@,
            r.device_type_view() == self.device_type_view(),
            r.functions_view() == self.functions_view(),
            r.events_view() == self.events_view(),
    {
        DeviceDefinitionBuilder { description: description.to_string(), ..self }
    }

    /// Adds a function after those already added.
    pub fn function(self, function: FunctionDef) -> (r: Self)
        ensures
            r.functions_view() == self.functions_view().push(function),
            r.device_type_view() == self.device_type_view(),
            r.description_view() == self.description_view(),
            r.events_view() == self.events_view(),
    {
        let mut b = self;
        b.functions.push(function);
        b
    }

    /// Adds an event after those already added.
    pub fn event(self, event: EventDef) -> (r: Self)
        ensures
            r.events_view() == self.events_view().push(event),
            r.device_type_view() == self.device_type_view(),
            r.description_view() == self.description_view(),
            r.functions_view() == self.functions_view(),
    {
        let mut b = self;
        b.events.push(event);
        b
    }

    /// The definition: the collected parts, with no capability labels.
    pub fn build(self) -> (r: DeviceDefinition)
        ensures
            r.device_type@ == self.device_type_view(),
            r.capabilities.description@ == self.description_view(),
            r.capabilities.functions@ == self.functions_view(),
            r.capabilities.events@ == self.events_view(),
            r.capabilities.labels is None,
    {
        DeviceDefinition {
            device_type: self.device_type,
            capabilities: DeviceCapabilities {
                description: self.description,
                functions: self.functions,
                events: self.events,
                labels: None,
            },
        }
    }
}

/// The identity a driver reports unless it says otherwise: only the device
/// type is set, to the type of its definition.
pub fn default_identity(definition: &DeviceDefinition) -> (r: DeviceIdentity)
    ensures
        r.device_type matches Some(t) && t@ == definition.device_type@,
        is_empty_identity(DeviceIdentity { device_type: None, ..r }),
{
    let mut r = DeviceIdentity::default();
    r.device_type = Some(definition.device_type.clone());
    r
}

/// The identity sent in a registration: the driver's identity, with the
/// device type taken from the definition where the identity has none.
pub fn registration_identity(identity: DeviceIdentity, definition: &DeviceDefinition) -> (r: DeviceIdentity)
    ensures
        identity.device_type is Some ==> r == identity,
        identity.device_type is None ==> (r.device_type matches Some(t) && t@
            == definition.device_type@ && r == DeviceIdentity { device_type: r.device_type, ..identity }),
{
    let mut r = identity;
    if r.device_type.is_none() {
        r.device_type = Some(definition.device_type.clone());
    }
    r
}

} // verus!
