//! Reading recorded data back out of a snapshot document.

use vstd::prelude::*;
use crate::data_handler::document::{
    item_docs, lemma_list_doc, lemma_table_doc, node_docs, Doc, Node,
};
use crate::name_map::{lemma_take_one_more, NameMap};

verus! {

/// The floats among the items of an array, in order. Items of any other
/// kind are passed over.
pub open spec fn floats_of(items: Seq<Doc>) -> Seq<u64>
    decreases items.len(),
{
    if items.len() == 0 {
        Seq::empty()
    } else {
        let rest = floats_of(items.drop_last());
        match items.last() {
            Doc::Number(bits) => rest.push(bits),
            _ => rest,
        }
    }
}

/// The histories in the `data` table of a device: the floats of every entry
/// that is an array. Entries of any other kind are passed over.
pub open spec fn histories_of(data: Map<Seq<char>, Doc>) -> Map<Seq<char>, Seq<u64>> {
    Map::new(
        |k: Seq<char>| data.contains_key(k) && data[k] is List,
        |k: Seq<char>| floats_of(data[k]->List_0),
    )
}

/// Whether a node is the table of a device with a `data` table in it.
pub open spec fn holds_data(device: Doc) -> bool {
    &&& device is Table
    &&& device->Table_0.contains_key("data"@)
    &&& device->Table_0["data"@] is Table
}

/// The recorded data of a document: for every table with a `data` table
/// under the table `device`, the histories in that `data` table. A document
/// of another shape holds no data.
pub open spec fn recorded_data(document: Doc) -> Map<Seq<char>, Map<Seq<char>, Seq<u64>>> {
    if document is Table && document->Table_0.contains_key("device"@) && document->Table_0["device"@] is Table {
        let devices = document->Table_0["device"@]->Table_0;
        Map::new(
            |d: Seq<char>| devices.contains_key(d) && holds_data(devices[d]),
            |d: Seq<char>| histories_of(devices[d]->Table_0["data"@]->Table_0),
        )
    } else {
        Map::empty()
    }
}

/// What a map of histories holds, by name.
pub open spec fn history_views(m: Map<Seq<char>, Vec<u64>>) -> Map<Seq<char>, Seq<u64>> {
    Map::new(|k: Seq<char>| m.contains_key(k), |k: Seq<char>| m[k]@)
}

/// What the data of some devices holds, by device and by name.
pub open spec fn data_views(m: Map<Seq<char>, NameMap<Vec<u64>>>) -> Map<
    Seq<char>,
    Map<Seq<char>, Seq<u64>>,
> {
    Map::new(|d: Seq<char>| m.contains_key(d), |d: Seq<char>| history_views(m[d]@))
}

/// The floats among the items of an array node.
pub fn floats_in(items: &Vec<Node>) -> (floats: Vec<u64>)
    ensures
        floats@ == floats_of(item_docs(items@)),
{
    let mut floats: Vec<u64> = Vec::new();
    let n: usize = items.len();
    let ghost docs = item_docs(items@);
    let mut i: usize = 0;
    while i < n
        invariant
            n == items.len(),
            docs == item_docs(items@),
            i <= n,
            floats@ == floats_of(docs.take(i as int)),
        decreases n - i,
    {
        proof {
            assert(docs.take(i + 1).drop_last() =~= docs.take(i as int));
            assert(docs.take(i + 1).last() == items[i as int].doc());
        }
        match &items[i] {
            Node::Number(bits) => {
                floats.push(*bits);
            },
            _ => {},
        }
        i += 1;
    }
    proof {
        assert(docs.take(n as int) =~= docs);
    }
    floats
}

/// The histories in the `data` table of a device.
pub fn histories_in(data: &NameMap<Node>) -> (histories: NameMap<Vec<u64>>)
    ensures
        history_views(histories@) == histories_of(node_docs(data@)),
{
    let mut histories: NameMap<Vec<u64>> = NameMap::new();
    let n: usize = data.len();
    let ghost names = data.keys();
    let ghost docs = node_docs(data@);
    let mut i: usize = 0;
    proof {
        assert(history_views(histories@) =~= Map::new(
            |k: Seq<char>| names.take(0).contains(k) && docs[k] is List,
            |k: Seq<char>| floats_of(docs[k]->List_0),
        ));
    }
    while i < n
        invariant
            data.wf(),
            names == data.keys(),
            docs == node_docs(data@),
            n == names.len(),
            i <= n,
            history_views(histories@) == Map::new(
                |k: Seq<char>| names.take(i as int).contains(k) && docs[k] is List,
                |k: Seq<char>| floats_of(docs[k]->List_0),
            ),
        decreases n - i,
    {
        let ghost before = history_views(histories@);
        let ghost name = names[i as int];
        proof {
            data.lemma_entry(i as int);
            lemma_take_one_more(names, i as int);
        }
        match data.value(i) {
            Node::List(items) => {
                let floats = floats_in(items);
                proof {
                    lemma_list_doc(*items);
                }
                histories.insert(data.key(i).clone(), floats);
                proof {
                    assert(history_views(histories@) =~= before.insert(name, floats@));
                }
            },
            _ => {},
        }
        proof {
            assert(history_views(histories@) =~= Map::new(
                |k: Seq<char>| names.take(i + 1).contains(k) && docs[k] is List,
                |k: Seq<char>| floats_of(docs[k]->List_0),
            ));
        }
        i += 1;
    }
    proof {
        assert(names.take(n as int) =~= names);
        assert forall|k: Seq<char>| #[trigger] docs.contains_key(k) implies names.contains(k) by {
            data.lemma_lookup(k);
        }
        assert(history_views(histories@) =~= histories_of(docs));
    }
    histories
}

/// The `data` table of a device node, where it has one.
pub fn data_table(device: &Node) -> (data: Option<&NameMap<Node>>)
    ensures
        data is Some <==> holds_data(device.doc()),
        data matches Some(t) ==> t.wf() && node_docs(t@) == device.doc()->Table_0["data"@]->Table_0,
{
    match device {
        Node::Table(fields) => {
            proof {
                use_type_invariant(fields);
                lemma_table_doc(*fields);
            }
            match fields.get("data") {
                Some(Node::Table(data)) => {
                    proof {
                        use_type_invariant(data);
                        lemma_table_doc(*data);
                    }
                    Some(data)
                },
                _ => None,
            }
        },
        _ => None,
    }
}

/// Reads the recorded data out of a snapshot document: for every device
/// that has a `data` table, its histories by name.
pub fn load_experimental_data(document: &Node) -> (loaded: NameMap<NameMap<Vec<u64>>>)
    ensures
        data_views(loaded@) == recorded_data(document.doc()),
{
    let mut loaded: NameMap<NameMap<Vec<u64>>> = NameMap::new();
    let devices = match document {
        Node::Table(root) => {
            proof {
                use_type_invariant(root);
                lemma_table_doc(*root);
            }
            match root.get("device") {
                Some(Node::Table(devices)) => {
                    proof {
                        use_type_invariant(devices);
                        lemma_table_doc(*devices);
                    }
                    devices
                },
                _ => {
                    assert(data_views(loaded@) =~= recorded_data(document.doc()));
                    return loaded;
                },
            }
        },
        _ => {
            assert(data_views(loaded@) =~= recorded_data(document.doc()));
            return loaded;
        },
    };
    let n: usize = devices.len();
    let ghost names = devices.keys();
    let ghost docs = node_docs(devices@);
    let mut i: usize = 0;
    proof {
        assert(data_views(loaded@) =~= Map::new(
            |d: Seq<char>| names.take(0).contains(d) && holds_data(docs[d]),
            |d: Seq<char>| histories_of(docs[d]->Table_0["data"@]->Table_0),
        ));
    }
    while i < n
        invariant
            devices.wf(),
            names == devices.keys(),
            docs == node_docs(devices@),
            n == names.len(),
            i <= n,
            data_views(loaded@) == Map::new(
                |d: Seq<char>| names.take(i as int).contains(d) && holds_data(docs[d]),
                |d: Seq<char>| histories_of(docs[d]->Table_0["data"@]->Table_0),
            ),
        decreases n - i,
    {
        let ghost before = data_views(loaded@);
        let ghost name = names[i as int];
        proof {
            devices.lemma_entry(i as int);
            lemma_take_one_more(names, i as int);
        }
        match data_table(devices.value(i)) {
            Some(data) => {
                let histories = histories_in(data);
                loaded.insert(devices.key(i).clone(), histories);
                proof {
                    assert(data_views(loaded@) =~= before.insert(name, history_views(histories@)));
                }
            },
            None => {},
        }
        proof {
            assert(data_views(loaded@) =~= Map::new(
                |d: Seq<char>| names.take(i + 1).contains(d) && holds_data(docs[d]),
                |d: Seq<char>| histories_of(docs[d]->Table_0["data"@]->Table_0),
            ));
        }
        i += 1;
    }
    proof {
        assert(names.take(n as int) =~= names);
        assert forall|k: Seq<char>| #[trigger] docs.contains_key(k) implies names.contains(k) by {
            devices.lemma_lookup(k);
        }
        assert(data_views(loaded@) =~= recorded_data(document.doc()));
    }
    loaded
}

} // verus!
