//! What a walk over a Verilog parse tree collects: modules with their ports,
//! registers and wires. The parser reports each rule it leaves, with the text
//! it matched; the listener fills in the item being built and files it away.
use vstd::prelude::*;

verus! {

/// Names collected by a visit of the parse tree.
#[derive(Debug)]
pub struct VerilogModulesVisitor(pub Vec<String>);

impl VerilogModulesVisitor {
    /// The names collected so far, to be added to.
    pub fn temp_result(&mut self) -> (r: &mut Vec<String>)
        ensures
            *r == old(self).0,
            final(self).0 == *final(r),
    {
        &mut self.0
    }
}

/// The modules of a source file.
#[derive(Debug)]
pub struct VerilogSource {
    pub modules: Vec<VerilogModule>,
}

/// A module: its name, ports, registers and wires in order of declaration.
#[derive(Debug)]
pub struct VerilogModule {
    pub name: String,
    pub ports: Vec<VerilogPort>,
    pub regs: Vec<VerilogReg>,
    pub wires: Vec<VerilogWire>,
}

#[derive(Clone, Copy, Debug, PartialEq, Eq, Structural)]
pub enum VerilogPortType {
    Input,
    Output,
    Inout,
}

#[derive(Debug)]
pub struct VerilogPort {
    pub typ: VerilogPortType,
    pub name: String,
}

#[derive(Debug)]
pub struct VerilogReg {
    pub name: String,
}

#[derive(Debug)]
pub struct VerilogWire {
    pub name: String,
}

impl Default for VerilogSource {
    fn default() -> (s: Self)
        ensures
            s.modules@.len() == 0,
    {
        VerilogSource { modules: Vec::new() }
    }
}

impl VerilogModule {
    /// A module with no name and nothing declared yet.
    pub open spec fn is_empty(self) -> bool {
        &&& self.name@.len() == 0
        &&& self.ports@.len() == 0
        &&& self.regs@.len() == 0
        &&& self.wires@.len() == 0
    }
}

impl Default for VerilogModule {
    fn default() -> (m: Self)
        ensures
            m.is_empty(),
    {
        VerilogModule {
            name: String::new(),
            ports: Vec::new(),
            regs: Vec::new(),
            wires: Vec::new(),
        }
    }
}

impl Default for VerilogPortType {
    fn default() -> (t: Self)
        ensures
            t == VerilogPortType::Input,
    {
        VerilogPortType::Input
    }
}

impl Default for VerilogPort {
    fn default() -> (p: Self)
        ensures
            p.typ == VerilogPortType::Input,
            p.name@.len() == 0,
    {
        VerilogPort { typ: VerilogPortType::Input, name: String::new() }
    }
}

impl Default for VerilogReg {
    fn default() -> (r: Self)
        ensures
            r.name@.len() == 0,
    {
        VerilogReg { name: String::new() }
    }
}

impl Default for VerilogWire {
    fn default() -> (w: Self)
        ensures
            w.name@.len() == 0,
    {
        VerilogWire { name: String::new() }
    }
}

/// Collects modules while the parser leaves rules. `module`, `port`, `reg` and
/// `wire` hold the items being built.
#[derive(Debug)]
pub struct MyVerilogListener {
    pub source: VerilogSource,
    pub module: Option<VerilogModule>,
    pub port: Option<VerilogPort>,
    pub reg: Option<VerilogReg>,
    pub wire: Option<VerilogWire>,
}

impl Default for MyVerilogListener {
    /// A listener with nothing being built; [`MyVerilogListener::new`] gives one
    /// that can be used.
    fn default() -> (l: Self)
        ensures
            l.source.modules@.len() == 0,
            l.module is None,
            l.port is None,
            l.reg is None,
            l.wire is None,
    {
        MyVerilogListener {
            source: VerilogSource::default(),
            module: None,
            port: None,
            reg: None,
            wire: None,
        }
    }
}

impl MyVerilogListener {
    /// Every item being built is there.
    pub open spec fn wf(self) -> bool {
        &&& self.module is Some
        &&& self.port is Some
        &&& self.reg is Some
        &&& self.wire is Some
    }

    /// Everything but the module being built is unchanged.
    pub open spec fn same_but_module(self, other: Self) -> bool {
        &&& self.source == other.source
        &&& self.port == other.port
        &&& self.reg == other.reg
        &&& self.wire == other.wire
    }

    /// A listener with empty items being built and no module collected.
    pub fn new() -> (l: Self)
        ensures
            l.wf(),
            l.source.modules@.len() == 0,
            l.module.unwrap().is_empty(),
            l.port.unwrap().typ == VerilogPortType::Input,
            l.port.unwrap().name@.len() == 0,
            l.reg.unwrap().name@.len() == 0,
            l.wire.unwrap().name@.len() == 0,
    {
        MyVerilogListener {
            source: VerilogSource::default(),
            module: Some(VerilogModule::default()),
            port: Some(VerilogPort::default()),
            reg: Some(VerilogReg::default()),
            wire: Some(VerilogWire::default()),
        }
    }

    /// The module's name was read.
    pub fn exit_module_identifier(&mut self, text: String)
        requires
            old(self).wf(),
        ensures
            final(self).wf(),
            final(self).module.unwrap().name == text,
            final(self).module.unwrap().ports == old(self).module.unwrap().ports,
            final(self).module.unwrap().regs == old(self).module.unwrap().regs,
            final(self).module.unwrap().wires == old(self).module.unwrap().wires,
            final(self).same_but_module(*old(self)),
    {
        let mut m = self.module.take().unwrap();
        m.name = text;
        self.module = Some(m);
    }

    /// A port declaration ended: the port being built joins the module and a
    /// new empty port is started.
    pub fn exit_port_declaration(&mut self)
        requires
            old(self).wf(),
        ensures
            final(self).wf(),
            final(self).module.unwrap().ports@ == old(self).module.unwrap().ports@.push(
                old(self).port.unwrap(),
            ),
            final(self).module.unwrap().name == old(self).module.unwrap().name,
            final(self).module.unwrap().regs == old(self).module.unwrap().regs,
            final(self).module.unwrap().wires == old(self).module.unwrap().wires,
            final(self).port.unwrap().typ == VerilogPortType::Input,
            final(self).port.unwrap().name@.len() == 0,
            final(self).source == old(self).source,
            final(self).reg == old(self).reg,
            final(self).wire == old(self).wire,
    {
        let port = self.port.take().unwrap();
        self.port = Some(VerilogPort::default());
        let mut m = self.module.take().unwrap();
        m.ports.push(port);
        self.module = Some(m);
    }

    fn set_port_type(&mut self, typ: VerilogPortType)
        requires
            old(self).wf(),
        ensures
            final(self).wf(),
            final(self).port.unwrap().typ == typ,
            final(self).port.unwrap().name == old(self).port.unwrap().name,
            final(self).source == old(self).source,
            final(self).module == old(self).module,
            final(self).reg == old(self).reg,
            final(self).wire == old(self).wire,
    {
        let mut p = self.port.take().unwrap();
        p.typ = typ;
        self.port = Some(p);
    }

    /// The port being built is an input.
    pub fn exit_input_port_identifier(&mut self)
        requires
            old(self).wf(),
        ensures
            final(self).wf(),
            final(self).port.unwrap().typ == VerilogPortType::Input,
            final(self).port.unwrap().name == old(self).port.unwrap().name,
            final(self).source == old(self).source,
            final(self).module == old(self).module,
            final(self).reg == old(self).reg,
            final(self).wire == old(self).wire,
    {
        self.set_port_type(VerilogPortType::Input);
    }

    /// The port being built is an output.
    pub fn exit_output_port_identifier(&mut self)
        requires
            old(self).wf(),
        ensures
            final(self).wf(),
            final(self).port.unwrap().typ == VerilogPortType::Output,
            final(self).port.unwrap().name == old(self).port.unwrap().name,
            final(self).source == old(self).source,
            final(self).module == old(self).module,
            final(self).reg == old(self).reg,
            final(self).wire == old(self).wire,
    {
        self.set_port_type(VerilogPortType::Output);
    }

    /// The port being built is bidirectional.
    pub fn exit_inout_port_identifier(&mut self)
        requires
            old(self).wf(),
        ensures
            final(self).wf(),
            final(self).port.unwrap().typ == VerilogPortType::Inout,
            final(self).port.unwrap().name == old(self).port.unwrap().name,
            final(self).source == old(self).source,
            final(self).module == old(self).module,
            final(self).reg == old(self).reg,
            final(self).wire == old(self).wire,
    {
        self.set_port_type(VerilogPortType::Inout);
    }

    /// The name of the port being built was read.
    pub fn exit_port_identifier(&mut self, text: String)
        requires
            old(self).wf(),
        ensures
            final(self).wf(),
            final(self).port.unwrap().name == text,
            final(self).port.unwrap().typ == old(self).port.unwrap().typ,
            final(self).source == old(self).source,
            final(self).module == old(self).module,
            final(self).reg == old(self).reg,
            final(self).wire == old(self).wire,
    {
        let mut p = self.port.take().unwrap();
        p.name = text;
        self.port = Some(p);
    }

    /// The name of the wire being built was read.
    pub fn exit_net_identifier(&mut self, text: String)
        requires
            old(self).wf(),
        ensures
            final(self).wf(),
            final(self).wire.unwrap().name == text,
            final(self).source == old(self).source,
            final(self).module == old(self).module,
            final(self).port == old(self).port,
            final(self).reg == old(self).reg,
    {
        self.wire = Some(VerilogWire { name: text });
    }

    /// A wire declaration ended: the wire being built joins the module and a
    /// new empty wire is started.
    pub fn exit_net_declaration(&mut self)
        requires
            old(self).wf(),
        ensures
            final(self).wf(),
            final(self).module.unwrap().wires@ == old(self).module.unwrap().wires@.push(
                old(self).wire.unwrap(),
            ),
            final(self).module.unwrap().name == old(self).module.unwrap().name,
            final(self).module.unwrap().ports == old(self).module.unwrap().ports,
            final(self).module.unwrap().regs == old(self).module.unwrap().regs,
            final(self).wire.unwrap().name@.len() == 0,
            final(self).source == old(self).source,
            final(self).port == old(self).port,
            final(self).reg == old(self).reg,
    {
        let wire = self.wire.take().unwrap();
        self.wire = Some(VerilogWire::default());
        let mut m = self.module.take().unwrap();
        m.wires.push(wire);
        self.module = Some(m);
    }

    /// The name of the register being built was read.
    pub fn exit_variable_identifier(&mut self, text: String)
        requires
            old(self).wf(),
        ensures
            final(self).wf(),
            final(self).reg.unwrap().name == text,
            final(self).source == old(self).source,
            final(self).module == old(self).module,
            final(self).port == old(self).port,
            final(self).wire == old(self).wire,
    {
        self.reg = Some(VerilogReg { name: text });
    }

    /// A register declaration ended: the register being built joins the module
    /// and a new empty register is started.
    pub fn exit_reg_declaration(&mut self)
        requires
            old(self).wf(),
        ensures
            final(self).wf(),
            final(self).module.unwrap().regs@ == old(self).module.unwrap().regs@.push(
                old(self).reg.unwrap(),
            ),
            final(self).module.unwrap().name == old(self).module.unwrap().name,
            final(self).module.unwrap().ports == old(self).module.unwrap().ports,
            final(self).module.unwrap().wires == old(self).module.unwrap().wires,
            final(self).reg.unwrap().name@.len() == 0,
            final(self).source == old(self).source,
            final(self).port == old(self).port,
            final(self).wire == old(self).wire,
    {
        let reg = self.reg.take().unwrap();
        self.reg = Some(VerilogReg::default());
        let mut m = self.module.take().unwrap();
        m.regs.push(reg);
        self.module = Some(m);
    }

    /// A module declaration ended: the module being built joins the source and
    /// a new empty module is started.
    pub fn exit_module_declaration(&mut self)
        requires
            old(self).wf(),
        ensures
            final(self).wf(),
            final(self).source.modules@ == old(self).source.modules@.push(
                old(self).module.unwrap(),
            ),
            final(self).module.unwrap().is_empty(),
            final(self).port == old(self).port,
            final(self).reg == old(self).reg,
            final(self).wire == old(self).wire,
    {
        let m = self.module.take().unwrap();
        self.module = Some(VerilogModule::default());
        self.source.modules.push(m);
    }
}

} // verus!
