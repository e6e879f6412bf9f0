//! The text form of a circuit graph: a summary line, each factor with its
//! ports, then each port with its two factors.
use vstd::prelude::*;

use super::construct::{port_path_display, port_path_text, PathView};
use super::paths::{quote, quoted};
use super::query::name_for;
use super::{CircuitGraph, FactorId, FactorType, PortId};
use crate::text::{decimal_text, digits_of};

verus! {

/// A factor type as its debug form: `Net("VCC")` or `Component("R1")`.
pub open spec fn factor_type_text(t: FactorType) -> Seq<char> {
    match t {
        FactorType::Net(n) => "Net("@ + quoted(n@) + ")"@,
        FactorType::Component(c) => "Component("@ + quoted(c@) + ")"@,
    }
}

/// A port id as its path, or `<unknown>` when no port has that id.
pub open spec fn port_text(paths: Seq<PathView>, p: PortId) -> Seq<char> {
    if p.0 < paths.len() {
        port_path_text(paths[p.0 as int])
    } else {
        "<unknown>"@
    }
}

/// The ports of a row, shown by path and joined by `", "`.
pub open spec fn port_list_text(paths: Seq<PathView>, ps: Seq<PortId>) -> Seq<char>
    decreases ps.len(),
{
    if ps.len() == 0 {
        Seq::empty()
    } else if ps.len() == 1 {
        port_text(paths, ps[0])
    } else {
        port_list_text(paths, ps.drop_last()) + ", "@ + port_text(paths, ps.last())
    }
}

/// A factor id as its recorded name, or `<unknown>`.
pub open spec fn factor_name_text(names: Seq<(Seq<char>, FactorId)>, f: FactorId) -> Seq<char> {
    match name_for(names, f) {
        Some(n) => n,
        None => "<unknown>"@,
    }
}

/// The line of one factor: its type and its ports.
pub open spec fn factor_line(
    types: Seq<FactorType>,
    rows: Seq<Seq<PortId>>,
    paths: Seq<PathView>,
    f: FactorId,
) -> Seq<char> {
    "    "@ + factor_type_text(types[f.0 as int]) + " -> ["@ + port_list_text(paths, rows[f.0 as int])
        + "]\n"@
}

/// The lines of the first `k` entries of the factor name table.
pub open spec fn factor_lines(
    types: Seq<FactorType>,
    rows: Seq<Seq<PortId>>,
    paths: Seq<PathView>,
    names: Seq<(Seq<char>, FactorId)>,
    k: nat,
) -> Seq<char>
    decreases k,
{
    if k == 0 {
        Seq::empty()
    } else {
        factor_lines(types, rows, paths, names, (k - 1) as nat) + factor_line(
            types,
            rows,
            paths,
            names[k - 1].1,
        )
    }
}

/// The line of one port: its path and the names of its two factors.
pub open spec fn port_line(names: Seq<(Seq<char>, FactorId)>, path: PathView, fs: [FactorId; 2]) -> Seq<
    char,
> {
    "    "@ + port_path_text(path) + " -> ["@ + factor_name_text(names, fs[0]) + ", "@
        + factor_name_text(names, fs[1]) + "]\n"@
}

/// The lines of the first `k` ports.
pub open spec fn port_lines(
    names: Seq<(Seq<char>, FactorId)>,
    paths: Seq<PathView>,
    pf: Seq<[FactorId; 2]>,
    k: nat,
) -> Seq<char>
    decreases k,
{
    if k == 0 {
        Seq::empty()
    } else {
        port_lines(names, paths, pf, (k - 1) as nat) + port_line(names, paths[k - 1], pf[k - 1])
    }
}

impl CircuitGraph {
    /// The whole text of the graph.
    pub open spec fn display_text(&self) -> Seq<char> {
        let names = self.spec_factor_names();
        let paths = self.spec_port_paths();
        "CircuitGraph {\n"@ + "  ports: "@ + digits_of(paths.len()) + ", factors: "@ + digits_of(
            names.len(),
        ) + "\n"@ + "  factors:\n"@ + factor_lines(
            self.spec_factor_types(),
            self.spec_factor_ports(),
            paths,
            names,
            names.len(),
        ) + "  ports:\n"@ + port_lines(names, paths, self.spec_port_factors(), paths.len()) + "}"@
    }

    /// The graph as text: the port and factor counts, each factor (in the order
    /// its name was recorded) with its ports, and each port with its factors.
    pub fn to_string(&self) -> (r: String)
        requires
            self.wf(),
        ensures
            r@ == self.display_text(),
    {
        let ghost names = self.spec_factor_names();
        let ghost paths = self.spec_port_paths();
        let ghost types = self.spec_factor_types();
        let ghost rows = self.spec_factor_ports();
        let ghost pf = self.spec_port_factors();
        let mut out = String::new();
        proof {
            reveal_strlit("CircuitGraph {\n");
            reveal_strlit("  ports: ");
            reveal_strlit(", factors: ");
            reveal_strlit("\n");
            reveal_strlit("  factors:\n");
        }
        out.append("CircuitGraph {\n");
        out.append("  ports: ");
        let np = decimal_text(self.port_paths.len() as u128);
        out.append(np.as_str());
        out.append(", factors: ");
        let nf = decimal_text(self.factor_names.len() as u128);
        out.append(nf.as_str());
        out.append("\n");
        out.append("  factors:\n");
        let ghost head = out@;
        proof {
            assert(paths.len() == self.port_paths@.len());
            assert(names.len() == self.factor_names@.len());
            assert(head =~= "CircuitGraph {\n"@ + "  ports: "@ + digits_of(paths.len()) + ", factors: "@
                + digits_of(names.len()) + "\n"@ + "  factors:\n"@);
        }
        let mut i: usize = 0;
        while i < self.factor_names.len()
            invariant
                self.wf(),
                names == self.spec_factor_names(),
                paths == self.spec_port_paths(),
                types == self.spec_factor_types(),
                rows == self.spec_factor_ports(),
                names.len() == self.factor_names@.len(),
                i <= names.len(),
                out@ == head + factor_lines(types, rows, paths, names, i as nat),
            decreases names.len() - i,
        {
            let fid = self.factor_names[i].1;
            proof {
                assert(names[i as int].1 == fid);
                self.lemma_name_ids_valid(i as int);
            }
            let line = self.factor_line_text(fid);
            out.append(line.as_str());
            proof {
                assert(out@ =~= head + factor_lines(types, rows, paths, names, (i + 1) as nat));
            }
            i = i + 1;
        }
        proof {
            reveal_strlit("  ports:\n");
        }
        out.append("  ports:\n");
        let ghost mid = out@;
        let mut p: usize = 0;
        while p < self.port_paths.len()
            invariant
                self.wf(),
                names == self.spec_factor_names(),
                paths == self.spec_port_paths(),
                pf == self.spec_port_factors(),
                paths.len() == self.port_paths@.len(),
                p <= paths.len(),
                out@ == mid + port_lines(names, paths, pf, p as nat),
            decreases paths.len() - p,
        {
            let line = self.port_line_text(p);
            out.append(line.as_str());
            proof {
                assert(out@ =~= mid + port_lines(names, paths, pf, (p + 1) as nat));
            }
            p = p + 1;
        }
        proof {
            reveal_strlit("}");
        }
        out.append("}");
        out
    }

    proof fn lemma_name_ids_valid(&self, i: int)
        requires
            self.wf(),
            0 <= i < self.spec_factor_names().len(),
        ensures
            self.spec_factor_names()[i].1.0 < self.spec_factor_ports().len(),
    {
        assert(self.spec_factor_names()[i].1 == self.factor_names@[i].1);
    }

    /// The line of factor `fid`.
    fn factor_line_text(&self, fid: FactorId) -> (r: String)
        requires
            self.wf(),
            fid.0 < self.spec_factor_ports().len(),
        ensures
            r@ == factor_line(
                self.spec_factor_types(),
                self.spec_factor_ports(),
                self.spec_port_paths(),
                fid,
            ),
    {
        let ghost paths = self.spec_port_paths();
        let mut out = String::new();
        proof {
            reveal_strlit("    ");
            reveal_strlit("Net(");
            reveal_strlit("Component(");
            reveal_strlit(")");
            reveal_strlit(" -> [");
            reveal_strlit(", ");
            reveal_strlit("]\n");
            reveal_strlit("<unknown>");
        }
        out.append("    ");
        match self.factor_type(fid) {
            FactorType::Net(n) => {
                out.append("Net(");
                let q = quote(n.as_str());
                out.append(q.as_str());
                out.append(")");
            },
            FactorType::Component(c) => {
                out.append("Component(");
                let q = quote(c.as_str());
                out.append(q.as_str());
                out.append(")");
            },
        }
        out.append(" -> [");
        let row = self.factor_ports(fid);
        let ghost head = out@;
        let mut k: usize = 0;
        while k < row.len()
            invariant
                self.wf(),
                paths == self.spec_port_paths(),
                k <= row@.len(),
                out@ == head + port_list_text(paths, row@.take(k as int)),
            decreases row@.len() - k,
        {
            if k > 0 {
                out.append(", ");
            }
            let pid = row[k];
            match self.port_path(pid) {
                Some(pp) => {
                    let t = port_path_display(pp);
                    out.append(t.as_str());
                },
                None => {
                    out.append("<unknown>");
                },
            }
            proof {
                let s = row@.take(k + 1);
                assert(s.drop_last() =~= row@.take(k as int));
                assert(s.last() == pid);
                if k == 0 {
                    assert(s =~= seq![pid]);
                }
                assert(out@ =~= head + port_list_text(paths, s));
            }
            k = k + 1;
        }
        proof {
            assert(row@.take(row@.len() as int) =~= row@);
        }
        out.append("]\n");
        proof {
            assert(out@ =~= factor_line(
                self.spec_factor_types(),
                self.spec_factor_ports(),
                paths,
                fid,
            ));
        }
        out
    }

    /// The line of port `p`.
    fn port_line_text(&self, p: usize) -> (r: String)
        requires
            self.wf(),
            p < self.spec_port_paths().len(),
        ensures
            r@ == port_line(
                self.spec_factor_names(),
                self.spec_port_paths()[p as int],
                self.spec_port_factors()[p as int],
            ),
    {
        let ghost names = self.spec_factor_names();
        proof {
            reveal_strlit("    ");
            reveal_strlit(" -> [");
            reveal_strlit(", ");
            reveal_strlit("]\n");
            reveal_strlit("<unknown>");
        }
        let mut out = String::new();
        out.append("    ");
        let t = port_path_display(&self.port_paths[p]);
        out.append(t.as_str());
        out.append(" -> [");
        let fs = self.port_factors[p];
        match self.factor_name(fs[0]) {
            Some(n) => out.append(n),
            None => out.append("<unknown>"),
        }
        out.append(", ");
        match self.factor_name(fs[1]) {
            Some(n) => out.append(n),
            None => out.append("<unknown>"),
        }
        out.append("]\n");
        proof {
            assert(self.spec_port_paths()[p as int] == self.port_paths@[p as int]@);
            assert(out@ =~= port_line(names, self.spec_port_paths()[p as int], fs));
        }
        out
    }
}

} // verus!
