//! Snapshots as documents: the tree of a TOML document, and the document
//! of a state.

use vstd::prelude::*;
use crate::data_handler::entity::{
    Device, DeviceView, Entity, EntityView, Experiment, ExperimentInfo, ExperimentInfoView,
    ExperimentView,
};
use crate::data_handler::series::{MeasurementData, Series};
use crate::data_handler::state::{
    entity_views, experiment_of, experiment_position, has_experiment, names_experiment,
    ServerState,
};
use crate::name_map::{lemma_take_one_more, NameMap};
use crate::text::text_of;

verus! {

/// A value of a TOML document, as a tree.
#[derive(Debug, PartialEq)]
pub enum Node {
    /// A string.
    Text(String),
    /// A float, as its IEEE 754 bit pattern.
    Number(u64),
    /// Any other value, carried as it is.
    Foreign(toml::Value),
    /// An array.
    List(Vec<Node>),
    /// A table.
    Table(NameMap<Node>),
}

/// What a `Node` holds, as a mathematical tree.
pub enum Doc {
    Text(Seq<char>),
    Number(u64),
    Foreign(toml::Value),
    List(Seq<Doc>),
    Table(Map<Seq<char>, Doc>),
}

impl Node {
    pub open(crate) spec fn doc(&self) -> Doc
        decreases self,
    {
        match self {
            Node::Text(s) => Doc::Text(s@),
            Node::Number(bits) => Doc::Number(*bits),
            Node::Foreign(v) => Doc::Foreign(*v),
            Node::List(items) => Doc::List(
                Seq::new(
                    items.len() as nat,
                    |i: int|
                        if 0 <= i < items.len() {
                            items[i].doc()
                        } else {
                            Doc::Number(0)
                        },
                ),
            ),
            Node::Table(t) => Doc::Table(
                Map::new(
                    |k: Seq<char>| t.keys().contains(k),
                    |k: Seq<char>|
                        {
                            let i = t.keys().index_of(k);
                            if 0 <= i < t.entries.len() {
                                t.entries[i].1.doc()
                            } else {
                                Doc::Number(0)
                            }
                        },
                ),
            ),
        }
    }
}

/// What the nodes of a table hold, by name.
pub open spec fn node_docs(m: Map<Seq<char>, Node>) -> Map<Seq<char>, Doc> {
    Map::new(|k: Seq<char>| m.contains_key(k), |k: Seq<char>| m[k].doc())
}

/// What the nodes of an array hold, in order.
pub open spec fn item_docs(items: Seq<Node>) -> Seq<Doc> {
    Seq::new(items.len(), |i: int| items[i].doc())
}

/// A table node holds the table of what its nodes hold.
pub proof fn lemma_table_doc(t: NameMap<Node>)
    requires
        t.wf(),
    ensures
        Node::Table(t).doc() == Doc::Table(node_docs(t@)),
{
    let direct = Node::Table(t).doc()->Table_0;
    assert forall|k: Seq<char>| #[trigger] direct.contains_key(k) implies direct[k] == node_docs(
        t@,
    )[k] by {
        t.lemma_lookup(k);
    }
    assert(direct =~= node_docs(t@));
}

/// An array node holds the array of what its nodes hold.
pub proof fn lemma_list_doc(items: Vec<Node>)
    ensures
        Node::List(items).doc() == Doc::List(item_docs(items@)),
{
    assert(Node::List(items).doc()->List_0 =~= item_docs(items@));
}

/// The array of the floats `v`.
pub open spec fn number_list(v: Seq<u64>) -> Doc {
    Doc::List(Seq::new(v.len(), |i: int| Doc::Number(v[i])))
}

/// A history as an array: of its samples if it is flat, of one array for
/// each of its arrays otherwise.
pub open spec fn series_doc(series: Series) -> Doc {
    match series {
        Series::Single(v) => number_list(v),
        Series::Multi(arrays) => Doc::List(
            Seq::new(arrays.len(), |i: int| number_list(arrays[i])),
        ),
    }
}

/// The table of the full histories of a device, by name.
pub open spec fn data_doc(measurements: Map<Seq<char>, Series>) -> Doc {
    Doc::Table(
        Map::new(
            |k: Seq<char>| measurements.contains_key(k),
            |k: Seq<char>| series_doc(measurements[k]),
        ),
    )
}

/// The table of one device: its settings, each under its own name; its name
/// under `device_name`, unless a setting has that name; and its histories
/// under `data`, whatever setting has that name.
pub open spec fn device_doc(d: DeviceView) -> Doc {
    Doc::Table(
        Map::new(
            |k: Seq<char>| k == "data"@ || k == "device_name"@ || d.device_config.contains_key(k),
            |k: Seq<char>|
                if k == "data"@ {
                    data_doc(d.measurements)
                } else if d.device_config.contains_key(k) {
                    Doc::Foreign(d.device_config[k])
                } else {
                    Doc::Text(d.device_name)
                },
        ),
    )
}

/// The table of who runs the experiment and what it is.
pub open spec fn info_doc(info: ExperimentInfoView) -> Doc {
    Doc::Table(
        Map::new(
            |k: Seq<char>|
                k == "name"@ || k == "email"@ || k == "experiment_name"@ || k
                    == "experiment_description"@,
            |k: Seq<char>|
                if k == "name"@ {
                    Doc::Text(info.name)
                } else if k == "email"@ {
                    Doc::Text(info.email)
                } else if k == "experiment_name"@ {
                    Doc::Text(info.experiment_name)
                } else {
                    Doc::Text(info.experiment_description)
                },
        ),
    )
}

/// A time that may be absent, as text: empty where it is absent.
pub open spec fn time_text(t: Option<Seq<char>>) -> Seq<char> {
    match t {
        Some(s) => s,
        None => Seq::empty(),
    }
}

/// The table of the descriptor: its start and its end, each empty where it
/// is absent, and its info.
pub open spec fn experiment_doc(e: ExperimentView) -> Doc {
    Doc::Table(
        Map::new(
            |k: Seq<char>| k == "start_time"@ || k == "end_time"@ || k == "info"@,
            |k: Seq<char>|
                if k == "start_time"@ {
                    Doc::Text(time_text(e.start_time))
                } else if k == "end_time"@ {
                    Doc::Text(time_text(e.end_time))
                } else {
                    info_doc(e.info)
                },
        ),
    )
}

/// Whether `name` is the name of a device in `m`.
pub open spec fn names_device(m: Map<Seq<char>, EntityView>, name: Seq<char>) -> bool {
    m.contains_key(name) && m[name] is Device
}

/// Whether `m` holds a device.
pub open spec fn has_device(m: Map<Seq<char>, EntityView>) -> bool {
    exists|k: Seq<char>| names_device(m, k)
}

/// The table of the devices, each under the name it is stored under.
pub open spec fn devices_doc(m: Map<Seq<char>, EntityView>) -> Doc {
    Doc::Table(
        Map::new(
            |k: Seq<char>| names_device(m, k),
            |k: Seq<char>| device_doc(m[k]->Device_0),
        ),
    )
}

/// The snapshot of a run as a document: the descriptor under `experiment`,
/// where the run has one, and the devices under `device`, where it has any.
pub open spec fn document(m: Map<Seq<char>, EntityView>) -> Doc {
    Doc::Table(
        Map::new(
            |k: Seq<char>|
                (k == "experiment"@ && has_experiment(m)) || (k == "device"@ && has_device(m)),
            |k: Seq<char>|
                if k == "experiment"@ {
                    experiment_doc(experiment_of(m))
                } else {
                    devices_doc(m)
                },
        ),
    )
}

/// The node of a string.
pub fn text_node(s: &String) -> (node: Node)
    ensures
        node.doc() == Doc::Text(s@),
{
    Node::Text(s.clone())
}

/// The node of a table.
pub fn table_node(t: NameMap<Node>) -> (node: Node)
    ensures
        node.doc() == Doc::Table(node_docs(t@)),
{
    proof {
        use_type_invariant(&t);
        lemma_table_doc(t);
    }
    Node::Table(t)
}

/// The node of an array of floats.
pub fn number_list_node(v: &Vec<u64>) -> (node: Node)
    ensures
        node.doc() == number_list(v@),
{
    let mut items: Vec<Node> = Vec::new();
    let n: usize = v.len();
    let mut i: usize = 0;
    while i < n
        invariant
            n == v.len(),
            i <= n,
            items.len() == i,
            forall|j: int| 0 <= j < i ==> (#[trigger] items[j]).doc() == Doc::Number(v[j]),
        decreases n - i,
    {
        items.push(Node::Number(v[i]));
        i += 1;
    }
    proof {
        lemma_list_doc(items);
        assert(item_docs(items@) =~= Seq::new(v@.len(), |i: int| Doc::Number(v@[i])));
    }
    Node::List(items)
}

impl MeasurementData {
    /// The full history as a node.
    pub fn to_node(&self) -> (node: Node)
        ensures
            node.doc() == series_doc(self@),
    {
        match self {
            MeasurementData::Single(v) => number_list_node(v),
            MeasurementData::Multi(arrays) => {
                let mut items: Vec<Node> = Vec::new();
                let n: usize = arrays.len();
                let mut i: usize = 0;
                while i < n
                    invariant
                        n == arrays.len(),
                        i <= n,
                        items.len() == i,
                        forall|j: int|
                            0 <= j < i ==> (#[trigger] items[j]).doc() == number_list(arrays[j]@),
                    decreases n - i,
                {
                    items.push(number_list_node(&arrays[i]));
                    i += 1;
                }
                proof {
                    lemma_list_doc(items);
                    let want = Seq::new(self@->Multi_0.len(), |i: int| number_list(self@->Multi_0[i]));
                    assert(item_docs(items@) =~= want);
                }
                Node::List(items)
            },
        }
    }
}

impl ExperimentInfo {
    /// The info as a table node.
    pub fn to_node(&self) -> (node: Node)
        ensures
            node.doc() == info_doc(self@),
    {
        let mut t: NameMap<Node> = NameMap::new();
        t.insert("name".to_owned(), text_node(&self.name));
        t.insert("email".to_owned(), text_node(&self.email));
        t.insert("experiment_name".to_owned(), text_node(&self.experiment_name));
        t.insert("experiment_description".to_owned(), text_node(&self.experiment_description));
        proof {
            reveal_strlit("name");
            reveal_strlit("email");
            reveal_strlit("experiment_name");
            reveal_strlit("experiment_description");
            assert("name"@.len() == 4);
            assert("email"@.len() == 5);
            assert("experiment_name"@.len() == 15);
            assert("experiment_description"@.len() == 22);
            assert(node_docs(t@) =~= info_doc(self@)->Table_0);
        }
        table_node(t)
    }
}

/// The node of a time that may be absent: the empty string where it is.
pub fn time_node(t: &Option<String>) -> (node: Node)
    ensures
        node.doc() == Doc::Text(time_text(text_of(*t))),
{
    match t {
        Some(s) => text_node(s),
        None => Node::Text(String::new()),
    }
}

impl Experiment {
    /// The descriptor as a table node.
    pub fn to_node(&self) -> (node: Node)
        ensures
            node.doc() == experiment_doc(self@),
    {
        let mut t: NameMap<Node> = NameMap::new();
        t.insert("start_time".to_owned(), time_node(&self.start_time));
        t.insert("end_time".to_owned(), time_node(&self.end_time));
        t.insert("info".to_owned(), self.info.to_node());
        proof {
            reveal_strlit("start_time");
            reveal_strlit("end_time");
            reveal_strlit("info");
            assert("start_time"@.len() == 10);
            assert("end_time"@.len() == 8);
            assert("info"@.len() == 4);
            assert(node_docs(t@) =~= experiment_doc(self@)->Table_0);
        }
        table_node(t)
    }
}

impl Device {
    /// The table of the full histories of this device, as a node.
    pub fn data_node(&self) -> (node: Node)
        ensures
            node.doc() == data_doc(self@.measurements),
    {
        let mut t: NameMap<Node> = NameMap::new();
        let n: usize = self.measurements.len();
        let ghost names = self.measurements.keys();
        let mut i: usize = 0;
        proof {
            assert(node_docs(t@) =~= Map::new(
                |k: Seq<char>| names.take(0).contains(k),
                |k: Seq<char>| series_doc(self@.measurements[k]),
            ));
        }
        while i < n
            invariant
                self.measurements.wf(),
                names == self.measurements.keys(),
                n == names.len(),
                i <= n,
                node_docs(t@) == Map::new(
                    |k: Seq<char>| names.take(i as int).contains(k),
                    |k: Seq<char>| series_doc(self@.measurements[k]),
                ),
            decreases n - i,
        {
            let ghost before = node_docs(t@);
            let name = self.measurements.key(i).clone();
            let node = self.measurements.value(i).to_node();
            t.insert(name, node);
            proof {
                self.measurements.lemma_entry(i as int);
                lemma_take_one_more(names, i as int);
                assert(node_docs(t@) =~= before.insert(names[i as int], node.doc()));
                assert(node_docs(t@) =~= Map::new(
                    |k: Seq<char>| names.take(i + 1).contains(k),
                    |k: Seq<char>| series_doc(self@.measurements[k]),
                ));
            }
            i += 1;
        }
        proof {
            assert(names.take(n as int) =~= names);
            assert forall|k: Seq<char>| #[trigger]
                names.contains(k) <==> self@.measurements.contains_key(k) by {}
            assert(node_docs(t@) =~= data_doc(self@.measurements)->Table_0);
        }
        table_node(t)
    }

    /// The table of this device, as a node.
    pub fn to_node(&self) -> (node: Node)
        ensures
            node.doc() == device_doc(self@),
    {
        let mut t: NameMap<Node> = NameMap::new();
        t.insert("device_name".to_owned(), text_node(&self.device_name));
        let n: usize = self.device_config.len();
        let ghost names = self.device_config.keys();
        let ghost config = self.device_config@;
        let ghost name_doc = Doc::Text(self.device_name@);
        let mut i: usize = 0;
        proof {
            assert(node_docs(t@) =~= Map::new(
                |k: Seq<char>| k == "device_name"@ || names.take(0).contains(k),
                |k: Seq<char>|
                    if names.take(0).contains(k) {
                        Doc::Foreign(config[k])
                    } else {
                        name_doc
                    },
            ));
        }
        while i < n
            invariant
                self.device_config.wf(),
                names == self.device_config.keys(),
                config == self.device_config@,
                name_doc == Doc::Text(self.device_name@),
                n == names.len(),
                i <= n,
                node_docs(t@) == Map::new(
                    |k: Seq<char>| k == "device_name"@ || names.take(i as int).contains(k),
                    |k: Seq<char>|
                        if names.take(i as int).contains(k) {
                            Doc::Foreign(config[k])
                        } else {
                            name_doc
                        },
                ),
            decreases n - i,
        {
            let ghost before = node_docs(t@);
            let name = self.device_config.key(i).clone();
            let value = self.device_config.value(i).clone();
            t.insert(name, Node::Foreign(value));
            proof {
                self.device_config.lemma_entry(i as int);
                lemma_take_one_more(names, i as int);
                assert forall|k: Seq<char>| #[trigger] names.take(i as int).contains(k) implies names.contains(k) by {
                    let j = names.take(i as int).index_of(k);
                    assert(names[j] == k);
                }
                assert(node_docs(t@) =~= before.insert(names[i as int], Doc::Foreign(value)));
                assert(node_docs(t@) =~= Map::new(
                    |k: Seq<char>| k == "device_name"@ || names.take(i + 1).contains(k),
                    |k: Seq<char>|
                        if names.take(i + 1).contains(k) {
                            Doc::Foreign(config[k])
                        } else {
                            name_doc
                        },
                ));
            }
            i += 1;
        }
        let ghost before = node_docs(t@);
        let data = self.data_node();
        t.insert("data".to_owned(), data);
        proof {
            assert(names.take(n as int) =~= names);
            assert(node_docs(t@) =~= before.insert("data"@, data.doc()));
            assert(node_docs(t@) =~= device_doc(self@)->Table_0);
        }
        table_node(t)
    }
}

impl ServerState {
    /// The full state as a document, for a snapshot: the descriptor under
    /// `experiment`, and every device under `device` and the name it is
    /// stored under, with its settings and its full histories.
    pub fn dump_to_toml(&self) -> (root: Node)
        ensures
            root.doc() == document(self@),
    {
        let entities = self.entities();
        let n: usize = entities.len();
        let ghost names = entities.keys();
        let ghost m = self@;
        let mut root: NameMap<Node> = NameMap::new();
        match experiment_position(entities) {
            Some(at) => match entities.value(at) {
                Entity::ExperimentSetup(descriptor) => {
                    proof {
                        let c = choose|k: Seq<char>| names_experiment(m, k);
                        assert(names_experiment(m, names[at as int]));
                        assert(names_experiment(m, c));
                    }
                    root.insert("experiment".to_owned(), descriptor.to_node());
                },
                Entity::Device(_) => {},
            },
            None => {},
        }
        proof {
            assert(node_docs(root@) =~= Map::new(
                |k: Seq<char>| k == "experiment"@ && has_experiment(m),
                |k: Seq<char>| experiment_doc(experiment_of(m)),
            ));
        }
        let mut devices: NameMap<Node> = NameMap::new();
        let mut i: usize = 0;
        proof {
            assert(node_docs(devices@) =~= Map::new(
                |k: Seq<char>| names.take(0).contains(k) && names_device(m, k),
                |k: Seq<char>| device_doc(m[k]->Device_0),
            ));
        }
        while i < n
            invariant
                entities.wf(),
                names == entities.keys(),
                entity_views(entities@) == m,
                n == names.len(),
                i <= n,
                node_docs(devices@) == Map::new(
                    |k: Seq<char>| names.take(i as int).contains(k) && names_device(m, k),
                    |k: Seq<char>| device_doc(m[k]->Device_0),
                ),
            decreases n - i,
        {
            let ghost devices_before = node_docs(devices@);
            let ghost name = names[i as int];
            proof {
                entities.lemma_entry(i as int);
                lemma_take_one_more(names, i as int);
            }
            match entities.value(i) {
                Entity::Device(device) => {
                    let node = device.to_node();
                    devices.insert(entities.key(i).clone(), node);
                    proof {
                        assert(names_device(m, name));
                        assert(node_docs(devices@) =~= devices_before.insert(name, node.doc()));
                    }
                },
                Entity::ExperimentSetup(_) => {},
            }
            proof {
                assert(node_docs(devices@) =~= Map::new(
                    |k: Seq<char>| names.take(i + 1).contains(k) && names_device(m, k),
                    |k: Seq<char>| device_doc(m[k]->Device_0),
                ));
            }
            i += 1;
        }
        let any_device = devices.len() > 0;
        proof {
            assert(names.take(n as int) =~= names);
            assert forall|k: Seq<char>| names_device(m, k) implies names.contains(k) by {
                entities.lemma_lookup(k);
            }
            assert(node_docs(devices@) =~= devices_doc(m)->Table_0);
            if any_device {
                let k = devices.keys()[0];
                devices.lemma_entry(0);
                assert(node_docs(devices@).contains_key(k));
                assert(names_device(m, k));
            } else {
                if has_device(m) {
                    let k = choose|k: Seq<char>| names_device(m, k);
                    assert(node_docs(devices@).contains_key(k));
                    devices.lemma_lookup(k);
                }
            }
            assert(any_device == has_device(m));
        }
        if any_device {
            let node = table_node(devices);
            root.insert("device".to_owned(), node);
        }
        proof {
            reveal_strlit("experiment");
            reveal_strlit("device");
            assert("experiment"@.len() == 10);
            assert("device"@.len() == 6);
            assert(node_docs(root@) =~= document(m)->Table_0);
        }
        table_node(root)
    }
}

} // verus!
