//! The API's metadata and response values, held as plain data: virtual
//! entities, device types, devices, resource types, resources, and the
//! authentication responses.

use vstd::prelude::*;
use crate::datetime::DateTime;
use crate::error::Error;
use crate::error::ErrorKind;
use crate::strmap::StrMap;

verus! {

/// A resource as referenced from a virtual entity.
pub struct ResourceInfo {
    /// The resource's identifier.
    pub resource_id: String,
    /// The resource type's identifier.
    pub resource_type_id: String,
}

/// A virtual entity grouping resources.
pub struct VirtualEntity {
    /// The entity's identifier.
    pub id: String,
    /// The entity's name.
    pub name: String,
    /// Whether the entity is active.
    pub active: bool,
    /// The entity type's identifier.
    pub type_id: String,
    /// The owning account's identifier.
    pub owner_id: String,
    /// The resources the entity groups.
    pub resources: Vec<ResourceInfo>,
}

/// A sensor as described on a device type.
pub struct Sensor {
    /// The protocol's identifier.
    pub protocol_id: String,
    /// The resource type's identifier.
    pub resource_type_id: String,
}

/// The protocol a device type speaks.
pub struct Protocol {
    /// The protocol's name.
    pub protocol: String,
    /// The sensors the protocol exposes.
    pub sensors: Vec<Sensor>,
}

/// A kind of device.
pub struct DeviceType {
    /// The device type's identifier.
    pub id: String,
    /// An optional description.
    pub description: Option<String>,
    /// Whether the device type is active.
    pub active: bool,
    /// The protocol the device type speaks.
    pub protocol: Protocol,
    /// When the device type was last updated.
    pub updated_at: DateTime,
    /// When the device type was created.
    pub created_at: DateTime,
}

/// A sensor on a concrete device, mapping to a resource.
pub struct DeviceSensor {
    /// The protocol's identifier.
    pub protocol_id: String,
    /// The resource the sensor feeds.
    pub resource_id: String,
    /// The resource type's identifier.
    pub resource_type_id: String,
}

/// The protocol a concrete device speaks.
pub struct DeviceProtocol {
    /// The protocol's name.
    pub protocol: String,
    /// The sensors on the device.
    pub sensors: Vec<DeviceSensor>,
}

/// A registered device.
pub struct Device {
    /// The device's identifier.
    pub id: String,
    /// An optional description.
    pub description: Option<String>,
    /// Whether the device is active.
    pub active: bool,
    /// The device's primary hardware identifier.
    pub hardware_id: String,
    /// The device type's identifier.
    pub device_type_id: String,
    /// The owning account's identifier.
    pub owner_id: String,
    /// The names of the hardware identifiers.
    pub hardware_id_names: Vec<String>,
    /// The named hardware identifiers.
    pub hardware_ids: Vec<(String, String)>,
    /// The hardware identifiers of the parent device.
    pub parent_hardware_id: Vec<String>,
    /// Free-form tags on the device.
    pub tags: Vec<String>,
    /// The protocol and sensors of the device.
    pub protocol: DeviceProtocol,
    /// When the device was last updated.
    pub updated_at: DateTime,
    /// When the device was created.
    pub created_at: DateTime,
}

/// Details of a resource type's data source.
pub struct DataSourceResourceTypeInfo {
    /// The kind of data.
    pub data_type: Option<String>,
    /// The unit of the data.
    pub unit: Option<String>,
    /// The range of the data.
    pub range: Option<String>,
    /// Whether the data is a cost.
    pub is_cost: Option<bool>,
    /// How the data is gathered.
    pub method: Option<String>,
}

impl From<String> for DataSourceResourceTypeInfo {
    /// A bare data-type string stands for details holding only that kind.
    fn from(val: String) -> (r: DataSourceResourceTypeInfo) {
        DataSourceResourceTypeInfo {
            data_type: Some(val),
            unit: None,
            range: None,
            is_cost: None,
            method: None,
        }
    }
}

impl vstd::std_specs::convert::FromSpecImpl<String> for DataSourceResourceTypeInfo {
    open spec fn obeys_from_spec() -> bool {
        true
    }

    open spec fn from_spec(val: String) -> Self {
        DataSourceResourceTypeInfo {
            data_type: Some(val),
            unit: None,
            range: None,
            is_cost: None,
            method: None,
        }
    }
}

/// One stored field of a resource type.
pub struct Field {
    /// The field's name.
    pub field_name: String,
    /// The field's data type.
    pub datatype: String,
    /// Whether the field may be negative.
    pub negative: bool,
}

/// How a resource type's readings are stored.
pub struct Storage {
    /// The kind of storage.
    pub storage_type: String,
    /// The sampling scheme.
    pub sampling: String,
    /// The stored fields.
    pub fields: Vec<Field>,
}

/// A kind of resource.
pub struct ResourceType {
    /// The resource type's identifier.
    pub id: String,
    /// The resource type's name.
    pub name: String,
    /// An optional description.
    pub description: Option<String>,
    /// An optional label.
    pub label: Option<String>,
    /// Whether the resource type is active.
    pub active: bool,
    /// The dot-delimited category of the data.
    pub classifier: Option<String>,
    /// The unit readings are expressed in.
    pub base_unit: Option<String>,
    /// The kind of data source.
    pub data_source_type: String,
    /// Details of the data source.
    pub data_source_resource_type_info: Option<DataSourceResourceTypeInfo>,
    /// Named units.
    pub units: Vec<(String, String)>,
    /// How readings are stored.
    pub storage: Vec<Storage>,
}

/// A meter-like data source.
pub struct Resource {
    /// The resource's identifier.
    pub id: String,
    /// The resource's name.
    pub name: String,
    /// An optional description.
    pub description: Option<String>,
    /// An optional label.
    pub label: Option<String>,
    /// Whether the resource is active.
    pub active: bool,
    /// The resource type's identifier.
    pub type_id: String,
    /// The owning account's identifier.
    pub owner_id: String,
    /// The dot-delimited category of the data.
    pub classifier: Option<String>,
    /// The unit readings are expressed in.
    pub base_unit: Option<String>,
    /// The kind of data source.
    pub data_source_type: String,
    /// Details of the data source.
    pub data_source_resource_type_info: Option<DataSourceResourceTypeInfo>,
    /// When the resource was last updated.
    pub updated_at: DateTime,
    /// When the resource was created.
    pub created_at: DateTime,
}

/// An item that the API keys by a string identifier.
pub trait Identified {
    /// The identifier's characters.
    spec fn spec_id(&self) -> Seq<char>;

    /// The identifier that keys this item.
    fn id(&self) -> (r: &str)
        ensures
            r@ == self.spec_id(),
    ;
}

impl Identified for VirtualEntity {
    open spec fn spec_id(&self) -> Seq<char> {
        self.id@
    }

    fn id(&self) -> (r: &str) {
        self.id.as_str()
    }
}

impl Identified for DeviceType {
    open spec fn spec_id(&self) -> Seq<char> {
        self.id@
    }

    fn id(&self) -> (r: &str) {
        self.id.as_str()
    }
}

impl Identified for Device {
    open spec fn spec_id(&self) -> Seq<char> {
        self.id@
    }

    fn id(&self) -> (r: &str) {
        self.id.as_str()
    }
}

impl Identified for ResourceType {
    open spec fn spec_id(&self) -> Seq<char> {
        self.id@
    }

    fn id(&self) -> (r: &str) {
        self.id.as_str()
    }
}

impl Identified for Resource {
    open spec fn spec_id(&self) -> Seq<char> {
        self.id@
    }

    fn id(&self) -> (r: &str) {
        self.id.as_str()
    }
}

/// The mapping that keys each item by its identifier; a later item with the
/// same identifier wins.
pub open spec fn spec_build_map<I: Identified>(s: Seq<I>) -> Map<Seq<char>, I>
    decreases s.len(),
{
    if s.len() == 0 {
        Map::empty()
    } else {
        spec_build_map(s.drop_last()).insert(s.last().spec_id(), s.last())
    }
}

/// Keys a list of items by their identifiers.
pub fn build_map<I: Identified>(list: Vec<I>) -> (map: StrMap<I>)
    ensures
        map.spec_wf(),
        map@ == spec_build_map(list@),
{
    let ghost orig = list@;
    let mut list = list;
    let total = list.len();
    proof {
        assert(orig.len() == total);
    }
    let mut map: StrMap<I> = StrMap::new();
    let mut i: usize = 0;
    while list.len() > 0
        invariant
            orig.len() <= usize::MAX,
            i + list@.len() == orig.len(),
            list@ == orig.skip(i as int),
            map.spec_wf(),
            map@ == spec_build_map(orig.take(i as int)),
        decreases list@.len(),
    {
        let item = list.remove(0);
        let key = item.id().to_owned();
        map.insert(key, item);
        proof {
            assert(orig.take(i + 1).drop_last() =~= orig.take(i as int));
            assert(orig.take(i + 1).last() == orig[i as int]);
            assert(list@ =~= orig.skip(i + 1));
        }
        i = i + 1;
    }
    proof {
        assert(orig.take(orig.len() as int) =~= orig);
    }
    map
}

/// The values of a keyed collection, in ascending key order.
pub fn values<T>(map: StrMap<T>) -> (r: Vec<T>)
    ensures
        r@ == map.spec_entries().map_values(|p: (String, T)| p.1),
{
    let mut entries = map.into_entries();
    let ghost all = entries@;
    let mut r: Vec<T> = Vec::new();
    while entries.len() > 0
        invariant
            r@.len() + entries@.len() == all.len(),
            entries@ == all.skip(r@.len() as int),
            r@ == all.take(r@.len() as int).map_values(|p: (String, T)| p.1),
        decreases entries@.len(),
    {
        let ghost n = r@.len() as int;
        let (_, v) = entries.remove(0);
        r.push(v);
        proof {
            assert(entries@ =~= all.skip(n + 1));
            assert(r@ =~= all.take(n + 1).map_values(|p: (String, T)| p.1));
        }
    }
    proof {
        assert(all.take(all.len() as int) =~= all);
    }
    r
}

/// The response to a successful authentication request.
#[derive(Debug)]
pub struct ValidAuthResponse {
    /// Whether the credential is valid.
    pub valid: bool,
    /// The bearer token.
    pub token: String,
    /// When the token expires, as seconds since the Unix epoch.
    pub expiry: i64,
}

/// The error carried by a failed request.
#[derive(Debug)]
pub struct ErrorResponse {
    /// The server's description of the failure.
    pub message: String,
}

/// The response to a rejected authentication request.
#[derive(Debug)]
pub struct InvalidAuthResponse {
    /// The error the server reported.
    pub error: ErrorResponse,
}

/// The two shapes an authentication response takes.
#[derive(Debug)]
pub enum AuthResponse {
    /// The request was rejected.
    Invalid(InvalidAuthResponse),
    /// The request was answered with a token.
    Valid(ValidAuthResponse),
}

impl AuthResponse {
    /// The validated response: a token only where the server both answered
    /// and marked the credential valid; otherwise an authentication error
    /// carrying the server's message, or a fixed one where the server gave
    /// none.
    pub fn validate(self) -> (r: Result<ValidAuthResponse, Error>)
        ensures
            match self {
                AuthResponse::Valid(response) => if response.valid {
                    r == Ok::<ValidAuthResponse, Error>(response)
                } else {
                    r matches Err(e) && e.kind == ErrorKind::NotAuthenticated && e.message@
                        == "Authentication error"@
                },
                AuthResponse::Invalid(response) => r matches Err(e) && e.kind
                    == ErrorKind::NotAuthenticated && e.message == response.error.message,
            },
    {
        match self {
            AuthResponse::Valid(response) => {
                if response.valid {
                    Ok(response)
                } else {
                    Err(
                        Error {
                            kind: ErrorKind::NotAuthenticated,
                            message: "Authentication error".to_owned(),
                        },
                    )
                }
            },
            AuthResponse::Invalid(response) => Err(
                Error { kind: ErrorKind::NotAuthenticated, message: response.error.message },
            ),
        }
    }
}

/// The response to a successful token validation.
#[derive(Debug)]
pub struct ValidValidateResponse {
    /// Whether the token is valid.
    pub valid: bool,
    /// When the token expires, as seconds since the Unix epoch.
    pub expiry: i64,
}

/// The response to a rejected token validation.
#[derive(Debug)]
pub struct InvalidValidateResponse {
    /// The error the server reported.
    pub error: ErrorResponse,
}

/// The two shapes a token-validation response takes.
#[derive(Debug)]
pub enum ValidateResponse {
    /// The token was rejected.
    Invalid(InvalidValidateResponse),
    /// The token was accepted.
    Valid(ValidValidateResponse),
}

impl ValidateResponse {
    /// The validated response: an expiry only where the server both
    /// answered and marked the token valid; otherwise an authentication
    /// error carrying the server's message, or a fixed one where the server
    /// gave none.
    pub fn validate(self) -> (r: Result<ValidValidateResponse, Error>)
        ensures
            match self {
                ValidateResponse::Valid(response) => if response.valid {
                    r == Ok::<ValidValidateResponse, Error>(response)
                } else {
                    r matches Err(e) && e.kind == ErrorKind::NotAuthenticated && e.message@
                        == "Authentication error"@
                },
                ValidateResponse::Invalid(response) => r matches Err(e) && e.kind
                    == ErrorKind::NotAuthenticated && e.message == response.error.message,
            },
    {
        match self {
            ValidateResponse::Valid(response) => {
                if response.valid {
                    Ok(response)
                } else {
                    Err(
                        Error {
                            kind: ErrorKind::NotAuthenticated,
                            message: "Authentication error".to_owned(),
                        },
                    )
                }
            },
            ValidateResponse::Invalid(response) => Err(
                Error { kind: ErrorKind::NotAuthenticated, message: response.error.message },
            ),
        }
    }
}

} // verus!
