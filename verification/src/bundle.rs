use crate::{ComponentBundle, ComponentData};
use vstd::prelude::*;

verus! {

impl ComponentBundle for (ComponentData, ComponentData) {
    open spec fn components(&self) -> Seq<ComponentData> {
        seq![self.0, self.1]
    }

    fn into_component_iter(self) -> (r: Vec<ComponentData>) {
        let ghost whole = self;
        let (t0, t1) = self;
        let mut v = Vec::new();
        v.push(t0);
        v.push(t1);
        proof {
            assert(v@ =~= seq![whole.0, whole.1]);
        }
        v
    }
}

impl ComponentBundle for (ComponentData, ComponentData, ComponentData) {
    open spec fn components(&self) -> Seq<ComponentData> {
        seq![self.0, self.1, self.2]
    }

    fn into_component_iter(self) -> (r: Vec<ComponentData>) {
        let ghost whole = self;
        let (t0, t1, t2) = self;
        let mut v = Vec::new();
        v.push(t0);
        v.push(t1);
        v.push(t2);
        proof {
            assert(v@ =~= seq![whole.0, whole.1, whole.2]);
        }
        v
    }
}

impl ComponentBundle for (ComponentData, ComponentData, ComponentData, ComponentData) {
    open spec fn components(&self) -> Seq<ComponentData> {
        seq![self.0, self.1, self.2, self.3]
    }

    fn into_component_iter(self) -> (r: Vec<ComponentData>) {
        let ghost whole = self;
        let (t0, t1, t2, t3) = self;
        let mut v = Vec::new();
        v.push(t0);
        v.push(t1);
        v.push(t2);
        v.push(t3);
        proof {
            assert(v@ =~= seq![whole.0, whole.1, whole.2, whole.3]);
        }
        v
    }
}

impl ComponentBundle for (ComponentData, ComponentData, ComponentData, ComponentData, ComponentData) {
    open spec fn components(&self) -> Seq<ComponentData> {
        seq![self.0, self.1, self.2, self.3, self.4]
    }

    fn into_component_iter(self) -> (r: Vec<ComponentData>) {
        let ghost whole = self;
        let (t0, t1, t2, t3, t4) = self;
        let mut v = Vec::new();
        v.push(t0);
        v.push(t1);
        v.push(t2);
        v.push(t3);
        v.push(t4);
        proof {
            assert(v@ =~= seq![whole.0, whole.1, whole.2, whole.3, whole.4]);
        }
        v
    }
}

impl ComponentBundle for (ComponentData, ComponentData, ComponentData, ComponentData, ComponentData, ComponentData) {
    open spec fn components(&self) -> Seq<ComponentData> {
        seq![self.0, self.1, self.2, self.3, self.4, self.5]
    }

    fn into_component_iter(self) -> (r: Vec<ComponentData>) {
        let ghost whole = self;
        let (t0, t1, t2, t3, t4, t5) = self;
        let mut v = Vec::new();
        v.push(t0);
        v.push(t1);
        v.push(t2);
        v.push(t3);
        v.push(t4);
        v.push(t5);
        proof {
            assert(v@ =~= seq![whole.0, whole.1, whole.2, whole.3, whole.4, whole.5]);
        }
        v
    }
}

impl ComponentBundle for (ComponentData, ComponentData, ComponentData, ComponentData, ComponentData, ComponentData, ComponentData) {
    open spec fn components(&self) -> Seq<ComponentData> {
        seq![self.0, self.1, self.2, self.3, self.4, self.5, self.6]
    }

    fn into_component_iter(self) -> (r: Vec<ComponentData>) {
        let ghost whole = self;
        let (t0, t1, t2, t3, t4, t5, t6) = self;
        let mut v = Vec::new();
        v.push(t0);
        v.push(t1);
        v.push(t2);
        v.push(t3);
        v.push(t4);
        v.push(t5);
        v.push(t6);
        proof {
            assert(v@ =~= seq![whole.0, whole.1, whole.2, whole.3, whole.4, whole.5, whole.6]);
        }
        v
    }
}

impl ComponentBundle for (ComponentData, ComponentData, ComponentData, ComponentData, ComponentData, ComponentData, ComponentData, ComponentData) {
    open spec fn components(&self) -> Seq<ComponentData> {
        seq![self.0, self.1, self.2, self.3, self.4, self.5, self.6, self.7]
    }

    fn into_component_iter(self) -> (r: Vec<ComponentData>) {
        let ghost whole = self;
        let (t0, t1, t2, t3, t4, t5, t6, t7) = self;
        let mut v = Vec::new();
        v.push(t0);
        v.push(t1);
        v.push(t2);
        v.push(t3);
        v.push(t4);
        v.push(t5);
        v.push(t6);
        v.push(t7);
        proof {
            assert(v@ =~= seq![whole.0, whole.1, whole.2, whole.3, whole.4, whole.5, whole.6, whole.7]);
        }
        v
    }
}

impl ComponentBundle for (ComponentData, ComponentData, ComponentData, ComponentData, ComponentData, ComponentData, ComponentData, ComponentData, ComponentData) {
    open spec fn components(&self) -> Seq<ComponentData> {
        seq![self.0, self.1, self.2, self.3, self.4, self.5, self.6, self.7, self.8]
    }

    fn into_component_iter(self) -> (r: Vec<ComponentData>) {
        let ghost whole = self;
        let (t0, t1, t2, t3, t4, t5, t6, t7, t8) = self;
        let mut v = Vec::new();
        v.push(t0);
        v.push(t1);
        v.push(t2);
        v.push(t3);
        v.push(t4);
        v.push(t5);
        v.push(t6);
        v.push(t7);
        v.push(t8);
        proof {
            assert(v@ =~= seq![whole.0, whole.1, whole.2, whole.3, whole.4, whole.5, whole.6, whole.7, whole.8]);
        }
        v
    }
}

impl ComponentBundle for (ComponentData, ComponentData, ComponentData, ComponentData, ComponentData, ComponentData, ComponentData, ComponentData, ComponentData, ComponentData) {
    open spec fn components(&self) -> Seq<ComponentData> {
        seq![self.0, self.1, self.2, self.3, self.4, self.5, self.6, self.7, self.8, self.9]
    }

    fn into_component_iter(self) -> (r: Vec<ComponentData>) {
        let ghost whole = self;
        let (t0, t1, t2, t3, t4, t5, t6, t7, t8, t9) = self;
        let mut v = Vec::new();
        v.push(t0);
        v.push(t1);
        v.push(t2);
        v.push(t3);
        v.push(t4);
        v.push(t5);
        v.push(t6);
        v.push(t7);
        v.push(t8);
        v.push(t9);
        proof {
            assert(v@ =~= seq![whole.0, whole.1, whole.2, whole.3, whole.4, whole.5, whole.6, whole.7, whole.8, whole.9]);
        }
        v
    }
}

impl ComponentBundle for (ComponentData, ComponentData, ComponentData, ComponentData, ComponentData, ComponentData, ComponentData, ComponentData, ComponentData, ComponentData, ComponentData) {
    open spec fn components(&self) -> Seq<ComponentData> {
        seq![self.0, self.1, self.2, self.3, self.4, self.5, self.6, self.7, self.8, self.9, self.10]
    }

    fn into_component_iter(self) -> (r: Vec<ComponentData>) {
        let ghost whole = self;
        let (t0, t1, t2, t3, t4, t5, t6, t7, t8, t9, t10) = self;
        let mut v = Vec::new();
        v.push(t0);
        v.push(t1);
        v.push(t2);
        v.push(t3);
        v.push(t4);
        v.push(t5);
        v.push(t6);
        v.push(t7);
        v.push(t8);
        v.push(t9);
        v.push(t10);
        proof {
            assert(v@ =~= seq![whole.0, whole.1, whole.2, whole.3, whole.4, whole.5, whole.6, whole.7, whole.8, whole.9, whole.10]);
        }
        v
    }
}

impl ComponentBundle for (ComponentData, ComponentData, ComponentData, ComponentData, ComponentData, ComponentData, ComponentData, ComponentData, ComponentData, ComponentData, ComponentData, ComponentData) {
    open spec fn components(&self) -> Seq<ComponentData> {
        seq![self.0, self.1, self.2, self.3, self.4, self.5, self.6, self.7, self.8, self.9, self.10, self.11]
    }

    fn into_component_iter(self) -> (r: Vec<ComponentData>) {
        let ghost whole = self;
        let (t0, t1, t2, t3, t4, t5, t6, t7, t8, t9, t10, t11) = self;
        let mut v = Vec::new();
        v.push(t0);
        v.push(t1);
        v.push(t2);
        v.push(t3);
        v.push(t4);
        v.push(t5);
        v.push(t6);
        v.push(t7);
        v.push(t8);
        v.push(t9);
        v.push(t10);
        v.push(t11);
        proof {
            assert(v@ =~= seq![whole.0, whole.1, whole.2, whole.3, whole.4, whole.5, whole.6, whole.7, whole.8, whole.9, whole.10, whole.11]);
        }
        v
    }
}

impl ComponentBundle for (ComponentData, ComponentData, ComponentData, ComponentData, ComponentData, ComponentData, ComponentData, ComponentData, ComponentData, ComponentData, ComponentData, ComponentData, ComponentData) {
    open spec fn components(&self) -> Seq<ComponentData> {
        seq![self.0, self.1, self.2, self.3, self.4, self.5, self.6, self.7, self.8, self.9, self.10, self.11, self.12]
    }

    fn into_component_iter(self) -> (r: Vec<ComponentData>) {
        let ghost whole = self;
        let (t0, t1, t2, t3, t4, t5, t6, t7, t8, t9, t10, t11, t12) = self;
        let mut v = Vec::new();
        v.push(t0);
        v.push(t1);
        v.push(t2);
        v.push(t3);
        v.push(t4);
        v.push(t5);
        v.push(t6);
        v.push(t7);
        v.push(t8);
        v.push(t9);
        v.push(t10);
        v.push(t11);
        v.push(t12);
        proof {
            assert(v@ =~= seq![whole.0, whole.1, whole.2, whole.3, whole.4, whole.5, whole.6, whole.7, whole.8, whole.9, whole.10, whole.11, whole.12]);
        }
        v
    }
}

impl ComponentBundle for (ComponentData, ComponentData, ComponentData, ComponentData, ComponentData, ComponentData, ComponentData, ComponentData, ComponentData, ComponentData, ComponentData, ComponentData, ComponentData, ComponentData) {
    open spec fn components(&self) -> Seq<ComponentData> {
        seq![self.0, self.1, self.2, self.3, self.4, self.5, self.6, self.7, self.8, self.9, self.10, self.11, self.12, self.13]
    }

    fn into_component_iter(self) -> (r: Vec<ComponentData>) {
        let ghost whole = self;
        let (t0, t1, t2, t3, t4, t5, t6, t7, t8, t9, t10, t11, t12, t13) = self;
        let mut v = Vec::new();
        v.push(t0);
        v.push(t1);
        v.push(t2);
        v.push(t3);
        v.push(t4);
        v.push(t5);
        v.push(t6);
        v.push(t7);
        v.push(t8);
        v.push(t9);
        v.push(t10);
        v.push(t11);
        v.push(t12);
        v.push(t13);
        proof {
            assert(v@ =~= seq![whole.0, whole.1, whole.2, whole.3, whole.4, whole.5, whole.6, whole.7, whole.8, whole.9, whole.10, whole.11, whole.12, whole.13]);
        }
        v
    }
}

impl ComponentBundle for (ComponentData, ComponentData, ComponentData, ComponentData, ComponentData, ComponentData, ComponentData, ComponentData, ComponentData, ComponentData, ComponentData, ComponentData, ComponentData, ComponentData, ComponentData) {
    open spec fn components(&self) -> Seq<ComponentData> {
        seq![self.0, self.1, self.2, self.3, self.4, self.5, self.6, self.7, self.8, self.9, self.10, self.11, self.12, self.13, self.14]
    }

    fn into_component_iter(self) -> (r: Vec<ComponentData>) {
        let ghost whole = self;
        let (t0, t1, t2, t3, t4, t5, t6, t7, t8, t9, t10, t11, t12, t13, t14) = self;
        let mut v = Vec::new();
        v.push(t0);
        v.push(t1);
        v.push(t2);
        v.push(t3);
        v.push(t4);
        v.push(t5);
        v.push(t6);
        v.push(t7);
        v.push(t8);
        v.push(t9);
        v.push(t10);
        v.push(t11);
        v.push(t12);
        v.push(t13);
        v.push(t14);
        proof {
            assert(v@ =~= seq![whole.0, whole.1, whole.2, whole.3, whole.4, whole.5, whole.6, whole.7, whole.8, whole.9, whole.10, whole.11, whole.12, whole.13, whole.14]);
        }
        v
    }
}

impl ComponentBundle for (ComponentData, ComponentData, ComponentData, ComponentData, ComponentData, ComponentData, ComponentData, ComponentData, ComponentData, ComponentData, ComponentData, ComponentData, ComponentData, ComponentData, ComponentData, ComponentData) {
    open spec fn components(&self) -> Seq<ComponentData> {
        seq![self.0, self.1, self.2, self.3, self.4, self.5, self.6, self.7, self.8, self.9, self.10, self.11, self.12, self.13, self.14, self.15]
    }

    fn into_component_iter(self) -> (r: Vec<ComponentData>) {
        let ghost whole = self;
        let (t0, t1, t2, t3, t4, t5, t6, t7, t8, t9, t10, t11, t12, t13, t14, t15) = self;
        let mut v = Vec::new();
        v.push(t0);
        v.push(t1);
        v.push(t2);
        v.push(t3);
        v.push(t4);
        v.push(t5);
        v.push(t6);
        v.push(t7);
        v.push(t8);
        v.push(t9);
        v.push(t10);
        v.push(t11);
        v.push(t12);
        v.push(t13);
        v.push(t14);
        v.push(t15);
        proof {
            assert(v@ =~= seq![whole.0, whole.1, whole.2, whole.3, whole.4, whole.5, whole.6, whole.7, whole.8, whole.9, whole.10, whole.11, whole.12, whole.13, whole.14, whole.15]);
        }
        v
    }
}

impl ComponentBundle for (ComponentData, ComponentData, ComponentData, ComponentData, ComponentData, ComponentData, ComponentData, ComponentData, ComponentData, ComponentData, ComponentData, ComponentData, ComponentData, ComponentData, ComponentData, ComponentData, ComponentData) {
    open spec fn components(&self) -> Seq<ComponentData> {
        seq![self.0, self.1, self.2, self.3, self.4, self.5, self.6, self.7, self.8, self.9, self.10, self.11, self.12, self.13, self.14, self.15, self.16]
    }

    fn into_component_iter(self) -> (r: Vec<ComponentData>) {
        let ghost whole = self;
        let (t0, t1, t2, t3, t4, t5, t6, t7, t8, t9, t10, t11, t12, t13, t14, t15, t16) = self;
        let mut v = Vec::new();
        v.push(t0);
        v.push(t1);
        v.push(t2);
        v.push(t3);
        v.push(t4);
        v.push(t5);
        v.push(t6);
        v.push(t7);
        v.push(t8);
        v.push(t9);
        v.push(t10);
        v.push(t11);
        v.push(t12);
        v.push(t13);
        v.push(t14);
        v.push(t15);
        v.push(t16);
        proof {
            assert(v@ =~= seq![whole.0, whole.1, whole.2, whole.3, whole.4, whole.5, whole.6, whole.7, whole.8, whole.9, whole.10, whole.11, whole.12, whole.13, whole.14, whole.15, whole.16]);
        }
        v
    }
}

impl ComponentBundle for (ComponentData, ComponentData, ComponentData, ComponentData, ComponentData, ComponentData, ComponentData, ComponentData, ComponentData, ComponentData, ComponentData, ComponentData, ComponentData, ComponentData, ComponentData, ComponentData, ComponentData, ComponentData) {
    open spec fn components(&self) -> Seq<ComponentData> {
        seq![self.0, self.1, self.2, self.3, self.4, self.5, self.6, self.7, self.8, self.9, self.10, self.11, self.12, self.13, self.14, self.15, self.16, self.17]
    }

    fn into_component_iter(self) -> (r: Vec<ComponentData>) {
        let ghost whole = self;
        let (t0, t1, t2, t3, t4, t5, t6, t7, t8, t9, t10, t11, t12, t13, t14, t15, t16, t17) = self;
        let mut v = Vec::new();
        v.push(t0);
        v.push(t1);
        v.push(t2);
        v.push(t3);
        v.push(t4);
        v.push(t5);
        v.push(t6);
        v.push(t7);
        v.push(t8);
        v.push(t9);
        v.push(t10);
        v.push(t11);
        v.push(t12);
        v.push(t13);
        v.push(t14);
        v.push(t15);
        v.push(t16);
        v.push(t17);
        proof {
            assert(v@ =~= seq![whole.0, whole.1, whole.2, whole.3, whole.4, whole.5, whole.6, whole.7, whole.8, whole.9, whole.10, whole.11, whole.12, whole.13, whole.14, whole.15, whole.16, whole.17]);
        }
        v
    }
}

impl ComponentBundle for (ComponentData, ComponentData, ComponentData, ComponentData, ComponentData, ComponentData, ComponentData, ComponentData, ComponentData, ComponentData, ComponentData, ComponentData, ComponentData, ComponentData, ComponentData, ComponentData, ComponentData, ComponentData, ComponentData) {
    open spec fn components(&self) -> Seq<ComponentData> {
        seq![self.0, self.1, self.2, self.3, self.4, self.5, self.6, self.7, self.8, self.9, self.10, self.11, self.12, self.13, self.14, self.15, self.16, self.17, self.18]
    }

    fn into_component_iter(self) -> (r: Vec<ComponentData>) {
        let ghost whole = self;
        let (t0, t1, t2, t3, t4, t5, t6, t7, t8, t9, t10, t11, t12, t13, t14, t15, t16, t17, t18) = self;
        let mut v = Vec::new();
        v.push(t0);
        v.push(t1);
        v.push(t2);
        v.push(t3);
        v.push(t4);
        v.push(t5);
        v.push(t6);
        v.push(t7);
        v.push(t8);
        v.push(t9);
        v.push(t10);
        v.push(t11);
        v.push(t12);
        v.push(t13);
        v.push(t14);
        v.push(t15);
        v.push(t16);
        v.push(t17);
        v.push(t18);
        proof {
            assert(v@ =~= seq![whole.0, whole.1, whole.2, whole.3, whole.4, whole.5, whole.6, whole.7, whole.8, whole.9, whole.10, whole.11, whole.12, whole.13, whole.14, whole.15, whole.16, whole.17, whole.18]);
        }
        v
    }
}

impl ComponentBundle for (ComponentData, ComponentData, ComponentData, ComponentData, ComponentData, ComponentData, ComponentData, ComponentData, ComponentData, ComponentData, ComponentData, ComponentData, ComponentData, ComponentData, ComponentData, ComponentData, ComponentData, ComponentData, ComponentData, ComponentData) {
    open spec fn components(&self) -> Seq<ComponentData> {
        seq![self.0, self.1, self.2, self.3, self.4, self.5, self.6, self.7, self.8, self.9, self.10, self.11, self.12, self.13, self.14, self.15, self.16, self.17, self.18, self.19]
    }

    fn into_component_iter(self) -> (r: Vec<ComponentData>) {
        let ghost whole = self;
        let (t0, t1, t2, t3, t4, t5, t6, t7, t8, t9, t10, t11, t12, t13, t14, t15, t16, t17, t18, t19) = self;
        let mut v = Vec::new();
        v.push(t0);
        v.push(t1);
        v.push(t2);
        v.push(t3);
        v.push(t4);
        v.push(t5);
        v.push(t6);
        v.push(t7);
        v.push(t8);
        v.push(t9);
        v.push(t10);
        v.push(t11);
        v.push(t12);
        v.push(t13);
        v.push(t14);
        v.push(t15);
        v.push(t16);
        v.push(t17);
        v.push(t18);
        v.push(t19);
        proof {
            assert(v@ =~= seq![whole.0, whole.1, whole.2, whole.3, whole.4, whole.5, whole.6, whole.7, whole.8, whole.9, whole.10, whole.11, whole.12, whole.13, whole.14, whole.15, whole.16, whole.17, whole.18, whole.19]);
        }
        v
    }
}

impl ComponentBundle for (ComponentData, ComponentData, ComponentData, ComponentData, ComponentData, ComponentData, ComponentData, ComponentData, ComponentData, ComponentData, ComponentData, ComponentData, ComponentData, ComponentData, ComponentData, ComponentData, ComponentData, ComponentData, ComponentData, ComponentData, ComponentData) {
    open spec fn components(&self) -> Seq<ComponentData> {
        seq![self.0, self.1, self.2, self.3, self.4, self.5, self.6, self.7, self.8, self.9, self.10, self.11, self.12, self.13, self.14, self.15, self.16, self.17, self.18, self.19, self.20]
    }

    fn into_component_iter(self) -> (r: Vec<ComponentData>) {
        let ghost whole = self;
        let (t0, t1, t2, t3, t4, t5, t6, t7, t8, t9, t10, t11, t12, t13, t14, t15, t16, t17, t18, t19, t20) = self;
        let mut v = Vec::new();
        v.push(t0);
        v.push(t1);
        v.push(t2);
        v.push(t3);
        v.push(t4);
        v.push(t5);
        v.push(t6);
        v.push(t7);
        v.push(t8);
        v.push(t9);
        v.push(t10);
        v.push(t11);
        v.push(t12);
        v.push(t13);
        v.push(t14);
        v.push(t15);
        v.push(t16);
        v.push(t17);
        v.push(t18);
        v.push(t19);
        v.push(t20);
        proof {
            assert(v@ =~= seq![whole.0, whole.1, whole.2, whole.3, whole.4, whole.5, whole.6, whole.7, whole.8, whole.9, whole.10, whole.11, whole.12, whole.13, whole.14, whole.15, whole.16, whole.17, whole.18, whole.19, whole.20]);
        }
        v
    }
}

impl ComponentBundle for (ComponentData, ComponentData, ComponentData, ComponentData, ComponentData, ComponentData, ComponentData, ComponentData, ComponentData, ComponentData, ComponentData, ComponentData, ComponentData, ComponentData, ComponentData, ComponentData, ComponentData, ComponentData, ComponentData, ComponentData, ComponentData, ComponentData) {
    open spec fn components(&self) -> Seq<ComponentData> {
        seq![self.0, self.1, self.2, self.3, self.4, self.5, self.6, self.7, self.8, self.9, self.10, self.11, self.12, self.13, self.14, self.15, self.16, self.17, self.18, self.19, self.20, self.21]
    }

    fn into_component_iter(self) -> (r: Vec<ComponentData>) {
        let ghost whole = self;
        let (t0, t1, t2, t3, t4, t5, t6, t7, t8, t9, t10, t11, t12, t13, t14, t15, t16, t17, t18, t19, t20, t21) = self;
        let mut v = Vec::new();
        v.push(t0);
        v.push(t1);
        v.push(t2);
        v.push(t3);
        v.push(t4);
        v.push(t5);
        v.push(t6);
        v.push(t7);
        v.push(t8);
        v.push(t9);
        v.push(t10);
        v.push(t11);
        v.push(t12);
        v.push(t13);
        v.push(t14);
        v.push(t15);
        v.push(t16);
        v.push(t17);
        v.push(t18);
        v.push(t19);
        v.push(t20);
        v.push(t21);
        proof {
            assert(v@ =~= seq![whole.0, whole.1, whole.2, whole.3, whole.4, whole.5, whole.6, whole.7, whole.8, whole.9, whole.10, whole.11, whole.12, whole.13, whole.14, whole.15, whole.16, whole.17, whole.18, whole.19, whole.20, whole.21]);
        }
        v
    }
}

impl ComponentBundle for (ComponentData, ComponentData, ComponentData, ComponentData, ComponentData, ComponentData, ComponentData, ComponentData, ComponentData, ComponentData, ComponentData, ComponentData, ComponentData, ComponentData, ComponentData, ComponentData, ComponentData, ComponentData, ComponentData, ComponentData, ComponentData, ComponentData, ComponentData) {
    open spec fn components(&self) -> Seq<ComponentData> {
        seq![self.0, self.1, self.2, self.3, self.4, self.5, self.6, self.7, self.8, self.9, self.10, self.11, self.12, self.13, self.14, self.15, self.16, self.17, self.18, self.19, self.20, self.21, self.22]
    }

    fn into_component_iter(self) -> (r: Vec<ComponentData>) {
        let ghost whole = self;
        let (t0, t1, t2, t3, t4, t5, t6, t7, t8, t9, t10, t11, t12, t13, t14, t15, t16, t17, t18, t19, t20, t21, t22) = self;
        let mut v = Vec::new();
        v.push(t0);
        v.push(t1);
        v.push(t2);
        v.push(t3);
        v.push(t4);
        v.push(t5);
        v.push(t6);
        v.push(t7);
        v.push(t8);
        v.push(t9);
        v.push(t10);
        v.push(t11);
        v.push(t12);
        v.push(t13);
        v.push(t14);
        v.push(t15);
        v.push(t16);
        v.push(t17);
        v.push(t18);
        v.push(t19);
        v.push(t20);
        v.push(t21);
        v.push(t22);
        proof {
            assert(v@ =~= seq![whole.0, whole.1, whole.2, whole.3, whole.4, whole.5, whole.6, whole.7, whole.8, whole.9, whole.10, whole.11, whole.12, whole.13, whole.14, whole.15, whole.16, whole.17, whole.18, whole.19, whole.20, whole.21, whole.22]);
        }
        v
    }
}

impl ComponentBundle for (ComponentData, ComponentData, ComponentData, ComponentData, ComponentData, ComponentData, ComponentData, ComponentData, ComponentData, ComponentData, ComponentData, ComponentData, ComponentData, ComponentData, ComponentData, ComponentData, ComponentData, ComponentData, ComponentData, ComponentData, ComponentData, ComponentData, ComponentData, ComponentData) {
    open spec fn components(&self) -> Seq<ComponentData> {
        seq![self.0, self.1, self.2, self.3, self.4, self.5, self.6, self.7, self.8, self.9, self.10, self.11, self.12, self.13, self.14, self.15, self.16, self.17, self.18, self.19, self.20, self.21, self.22, self.23]
    }

    fn into_component_iter(self) -> (r: Vec<ComponentData>) {
        let ghost whole = self;
        let (t0, t1, t2, t3, t4, t5, t6, t7, t8, t9, t10, t11, t12, t13, t14, t15, t16, t17, t18, t19, t20, t21, t22, t23) = self;
        let mut v = Vec::new();
        v.push(t0);
        v.push(t1);
        v.push(t2);
        v.push(t3);
        v.push(t4);
        v.push(t5);
        v.push(t6);
        v.push(t7);
        v.push(t8);
        v.push(t9);
        v.push(t10);
        v.push(t11);
        v.push(t12);
        v.push(t13);
        v.push(t14);
        v.push(t15);
        v.push(t16);
        v.push(t17);
        v.push(t18);
        v.push(t19);
        v.push(t20);
        v.push(t21);
        v.push(t22);
        v.push(t23);
        proof {
            assert(v@ =~= seq![whole.0, whole.1, whole.2, whole.3, whole.4, whole.5, whole.6, whole.7, whole.8, whole.9, whole.10, whole.11, whole.12, whole.13, whole.14, whole.15, whole.16, whole.17, whole.18, whole.19, whole.20, whole.21, whole.22, whole.23]);
        }
        v
    }
}

impl ComponentBundle for (ComponentData, ComponentData, ComponentData, ComponentData, ComponentData, ComponentData, ComponentData, ComponentData, ComponentData, ComponentData, ComponentData, ComponentData, ComponentData, ComponentData, ComponentData, ComponentData, ComponentData, ComponentData, ComponentData, ComponentData, ComponentData, ComponentData, ComponentData, ComponentData, ComponentData) {
    open spec fn components(&self) -> Seq<ComponentData> {
        seq![self.0, self.1, self.2, self.3, self.4, self.5, self.6, self.7, self.8, self.9, self.10, self.11, self.12, self.13, self.14, self.15, self.16, self.17, self.18, self.19, self.20, self.21, self.22, self.23, self.24]
    }

    fn into_component_iter(self) -> (r: Vec<ComponentData>) {
        let ghost whole = self;
        let (t0, t1, t2, t3, t4, t5, t6, t7, t8, t9, t10, t11, t12, t13, t14, t15, t16, t17, t18, t19, t20, t21, t22, t23, t24) = self;
        let mut v = Vec::new();
        v.push(t0);
        v.push(t1);
        v.push(t2);
        v.push(t3);
        v.push(t4);
        v.push(t5);
        v.push(t6);
        v.push(t7);
        v.push(t8);
        v.push(t9);
        v.push(t10);
        v.push(t11);
        v.push(t12);
        v.push(t13);
        v.push(t14);
        v.push(t15);
        v.push(t16);
        v.push(t17);
        v.push(t18);
        v.push(t19);
        v.push(t20);
        v.push(t21);
        v.push(t22);
        v.push(t23);
        v.push(t24);
        proof {
            assert(v@ =~= seq![whole.0, whole.1, whole.2, whole.3, whole.4, whole.5, whole.6, whole.7, whole.8, whole.9, whole.10, whole.11, whole.12, whole.13, whole.14, whole.15, whole.16, whole.17, whole.18, whole.19, whole.20, whole.21, whole.22, whole.23, whole.24]);
        }
        v
    }
}

impl ComponentBundle for (ComponentData, ComponentData, ComponentData, ComponentData, ComponentData, ComponentData, ComponentData, ComponentData, ComponentData, ComponentData, ComponentData, ComponentData, ComponentData, ComponentData, ComponentData, ComponentData, ComponentData, ComponentData, ComponentData, ComponentData, ComponentData, ComponentData, ComponentData, ComponentData, ComponentData, ComponentData) {
    open spec fn components(&self) -> Seq<ComponentData> {
        seq![self.0, self.1, self.2, self.3, self.4, self.5, self.6, self.7, self.8, self.9, self.10, self.11, self.12, self.13, self.14, self.15, self.16, self.17, self.18, self.19, self.20, self.21, self.22, self.23, self.24, self.25]
    }

    fn into_component_iter(self) -> (r: Vec<ComponentData>) {
        let ghost whole = self;
        let (t0, t1, t2, t3, t4, t5, t6, t7, t8, t9, t10, t11, t12, t13, t14, t15, t16, t17, t18, t19, t20, t21, t22, t23, t24, t25) = self;
        let mut v = Vec::new();
        v.push(t0);
        v.push(t1);
        v.push(t2);
        v.push(t3);
        v.push(t4);
        v.push(t5);
        v.push(t6);
        v.push(t7);
        v.push(t8);
        v.push(t9);
        v.push(t10);
        v.push(t11);
        v.push(t12);
        v.push(t13);
        v.push(t14);
        v.push(t15);
        v.push(t16);
        v.push(t17);
        v.push(t18);
        v.push(t19);
        v.push(t20);
        v.push(t21);
        v.push(t22);
        v.push(t23);
        v.push(t24);
        v.push(t25);
        proof {
            assert(v@ =~= seq![whole.0, whole.1, whole.2, whole.3, whole.4, whole.5, whole.6, whole.7, whole.8, whole.9, whole.10, whole.11, whole.12, whole.13, whole.14, whole.15, whole.16, whole.17, whole.18, whole.19, whole.20, whole.21, whole.22, whole.23, whole.24, whole.25]);
        }
        v
    }
}

impl ComponentBundle for (ComponentData, ComponentData, ComponentData, ComponentData, ComponentData, ComponentData, ComponentData, ComponentData, ComponentData, ComponentData, ComponentData, ComponentData, ComponentData, ComponentData, ComponentData, ComponentData, ComponentData, ComponentData, ComponentData, ComponentData, ComponentData, ComponentData, ComponentData, ComponentData, ComponentData, ComponentData, ComponentData) {
    open spec fn components(&self) -> Seq<ComponentData> {
        seq![self.0, self.1, self.2, self.3, self.4, self.5, self.6, self.7, self.8, self.9, self.10, self.11, self.12, self.13, self.14, self.15, self.16, self.17, self.18, self.19, self.20, self.21, self.22, self.23, self.24, self.25, self.26]
    }

    fn into_component_iter(self) -> (r: Vec<ComponentData>) {
        let ghost whole = self;
        let (t0, t1, t2, t3, t4, t5, t6, t7, t8, t9, t10, t11, t12, t13, t14, t15, t16, t17, t18, t19, t20, t21, t22, t23, t24, t25, t26) = self;
        let mut v = Vec::new();
        v.push(t0);
        v.push(t1);
        v.push(t2);
        v.push(t3);
        v.push(t4);
        v.push(t5);
        v.push(t6);
        v.push(t7);
        v.push(t8);
        v.push(t9);
        v.push(t10);
        v.push(t11);
        v.push(t12);
        v.push(t13);
        v.push(t14);
        v.push(t15);
        v.push(t16);
        v.push(t17);
        v.push(t18);
        v.push(t19);
        v.push(t20);
        v.push(t21);
        v.push(t22);
        v.push(t23);
        v.push(t24);
        v.push(t25);
        v.push(t26);
        proof {
            assert(v@ =~= seq![whole.0, whole.1, whole.2, whole.3, whole.4, whole.5, whole.6, whole.7, whole.8, whole.9, whole.10, whole.11, whole.12, whole.13, whole.14, whole.15, whole.16, whole.17, whole.18, whole.19, whole.20, whole.21, whole.22, whole.23, whole.24, whole.25, whole.26]);
        }
        v
    }
}

impl ComponentBundle for (ComponentData, ComponentData, ComponentData, ComponentData, ComponentData, ComponentData, ComponentData, ComponentData, ComponentData, ComponentData, ComponentData, ComponentData, ComponentData, ComponentData, ComponentData, ComponentData, ComponentData, ComponentData, ComponentData, ComponentData, ComponentData, ComponentData, ComponentData, ComponentData, ComponentData, ComponentData, ComponentData, ComponentData) {
    open spec fn components(&self) -> Seq<ComponentData> {
        seq![self.0, self.1, self.2, self.3, self.4, self.5, self.6, self.7, self.8, self.9, self.10, self.11, self.12, self.13, self.14, self.15, self.16, self.17, self.18, self.19, self.20, self.21, self.22, self.23, self.24, self.25, self.26, self.27]
    }

    fn into_component_iter(self) -> (r: Vec<ComponentData>) {
        let ghost whole = self;
        let (t0, t1, t2, t3, t4, t5, t6, t7, t8, t9, t10, t11, t12, t13, t14, t15, t16, t17, t18, t19, t20, t21, t22, t23, t24, t25, t26, t27) = self;
        let mut v = Vec::new();
        v.push(t0);
        v.push(t1);
        v.push(t2);
        v.push(t3);
        v.push(t4);
        v.push(t5);
        v.push(t6);
        v.push(t7);
        v.push(t8);
        v.push(t9);
        v.push(t10);
        v.push(t11);
        v.push(t12);
        v.push(t13);
        v.push(t14);
        v.push(t15);
        v.push(t16);
        v.push(t17);
        v.push(t18);
        v.push(t19);
        v.push(t20);
        v.push(t21);
        v.push(t22);
        v.push(t23);
        v.push(t24);
        v.push(t25);
        v.push(t26);
        v.push(t27);
        proof {
            assert(v@ =~= seq![whole.0, whole.1, whole.2, whole.3, whole.4, whole.5, whole.6, whole.7, whole.8, whole.9, whole.10, whole.11, whole.12, whole.13, whole.14, whole.15, whole.16, whole.17, whole.18, whole.19, whole.20, whole.21, whole.22, whole.23, whole.24, whole.25, whole.26, whole.27]);
        }
        v
    }
}

impl ComponentBundle for (ComponentData, ComponentData, ComponentData, ComponentData, ComponentData, ComponentData, ComponentData, ComponentData, ComponentData, ComponentData, ComponentData, ComponentData, ComponentData, ComponentData, ComponentData, ComponentData, ComponentData, ComponentData, ComponentData, ComponentData, ComponentData, ComponentData, ComponentData, ComponentData, ComponentData, ComponentData, ComponentData, ComponentData, ComponentData) {
    open spec fn components(&self) -> Seq<ComponentData> {
        seq![self.0, self.1, self.2, self.3, self.4, self.5, self.6, self.7, self.8, self.9, self.10, self.11, self.12, self.13, self.14, self.15, self.16, self.17, self.18, self.19, self.20, self.21, self.22, self.23, self.24, self.25, self.26, self.27, self.28]
    }

    fn into_component_iter(self) -> (r: Vec<ComponentData>) {
        let ghost whole = self;
        let (t0, t1, t2, t3, t4, t5, t6, t7, t8, t9, t10, t11, t12, t13, t14, t15, t16, t17, t18, t19, t20, t21, t22, t23, t24, t25, t26, t27, t28) = self;
        let mut v = Vec::new();
        v.push(t0);
        v.push(t1);
        v.push(t2);
        v.push(t3);
        v.push(t4);
        v.push(t5);
        v.push(t6);
        v.push(t7);
        v.push(t8);
        v.push(t9);
        v.push(t10);
        v.push(t11);
        v.push(t12);
        v.push(t13);
        v.push(t14);
        v.push(t15);
        v.push(t16);
        v.push(t17);
        v.push(t18);
        v.push(t19);
        v.push(t20);
        v.push(t21);
        v.push(t22);
        v.push(t23);
        v.push(t24);
        v.push(t25);
        v.push(t26);
        v.push(t27);
        v.push(t28);
        proof {
            assert(v@ =~= seq![whole.0, whole.1, whole.2, whole.3, whole.4, whole.5, whole.6, whole.7, whole.8, whole.9, whole.10, whole.11, whole.12, whole.13, whole.14, whole.15, whole.16, whole.17, whole.18, whole.19, whole.20, whole.21, whole.22, whole.23, whole.24, whole.25, whole.26, whole.27, whole.28]);
        }
        v
    }
}

impl ComponentBundle for (ComponentData, ComponentData, ComponentData, ComponentData, ComponentData, ComponentData, ComponentData, ComponentData, ComponentData, ComponentData, ComponentData, ComponentData, ComponentData, ComponentData, ComponentData, ComponentData, ComponentData, ComponentData, ComponentData, ComponentData, ComponentData, ComponentData, ComponentData, ComponentData, ComponentData, ComponentData, ComponentData, ComponentData, ComponentData, ComponentData) {
    open spec fn components(&self) -> Seq<ComponentData> {
        seq![self.0, self.1, self.2, self.3, self.4, self.5, self.6, self.7, self.8, self.9, self.10, self.11, self.12, self.13, self.14, self.15, self.16, self.17, self.18, self.19, self.20, self.21, self.22, self.23, self.24, self.25, self.26, self.27, self.28, self.29]
    }

    fn into_component_iter(self) -> (r: Vec<ComponentData>) {
        let ghost whole = self;
        let (t0, t1, t2, t3, t4, t5, t6, t7, t8, t9, t10, t11, t12, t13, t14, t15, t16, t17, t18, t19, t20, t21, t22, t23, t24, t25, t26, t27, t28, t29) = self;
        let mut v = Vec::new();
        v.push(t0);
        v.push(t1);
        v.push(t2);
        v.push(t3);
        v.push(t4);
        v.push(t5);
        v.push(t6);
        v.push(t7);
        v.push(t8);
        v.push(t9);
        v.push(t10);
        v.push(t11);
        v.push(t12);
        v.push(t13);
        v.push(t14);
        v.push(t15);
        v.push(t16);
        v.push(t17);
        v.push(t18);
        v.push(t19);
        v.push(t20);
        v.push(t21);
        v.push(t22);
        v.push(t23);
        v.push(t24);
        v.push(t25);
        v.push(t26);
        v.push(t27);
        v.push(t28);
        v.push(t29);
        proof {
            assert(v@ =~= seq![whole.0, whole.1, whole.2, whole.3, whole.4, whole.5, whole.6, whole.7, whole.8, whole.9, whole.10, whole.11, whole.12, whole.13, whole.14, whole.15, whole.16, whole.17, whole.18, whole.19, whole.20, whole.21, whole.22, whole.23, whole.24, whole.25, whole.26, whole.27, whole.28, whole.29]);
        }
        v
    }
}

impl ComponentBundle for (ComponentData, ComponentData, ComponentData, ComponentData, ComponentData, ComponentData, ComponentData, ComponentData, ComponentData, ComponentData, ComponentData, ComponentData, ComponentData, ComponentData, ComponentData, ComponentData, ComponentData, ComponentData, ComponentData, ComponentData, ComponentData, ComponentData, ComponentData, ComponentData, ComponentData, ComponentData, ComponentData, ComponentData, ComponentData, ComponentData, ComponentData) {
    open spec fn components(&self) -> Seq<ComponentData> {
        seq![self.0, self.1, self.2, self.3, self.4, self.5, self.6, self.7, self.8, self.9, self.10, self.11, self.12, self.13, self.14, self.15, self.16, self.17, self.18, self.19, self.20, self.21, self.22, self.23, self.24, self.25, self.26, self.27, self.28, self.29, self.30]
    }

    fn into_component_iter(self) -> (r: Vec<ComponentData>) {
        let ghost whole = self;
        let (t0, t1, t2, t3, t4, t5, t6, t7, t8, t9, t10, t11, t12, t13, t14, t15, t16, t17, t18, t19, t20, t21, t22, t23, t24, t25, t26, t27, t28, t29, t30) = self;
        let mut v = Vec::new();
        v.push(t0);
        v.push(t1);
        v.push(t2);
        v.push(t3);
        v.push(t4);
        v.push(t5);
        v.push(t6);
        v.push(t7);
        v.push(t8);
        v.push(t9);
        v.push(t10);
        v.push(t11);
        v.push(t12);
        v.push(t13);
        v.push(t14);
        v.push(t15);
        v.push(t16);
        v.push(t17);
        v.push(t18);
        v.push(t19);
        v.push(t20);
        v.push(t21);
        v.push(t22);
        v.push(t23);
        v.push(t24);
        v.push(t25);
        v.push(t26);
        v.push(t27);
        v.push(t28);
        v.push(t29);
        v.push(t30);
        proof {
            assert(v@ =~= seq![whole.0, whole.1, whole.2, whole.3, whole.4, whole.5, whole.6, whole.7, whole.8, whole.9, whole.10, whole.11, whole.12, whole.13, whole.14, whole.15, whole.16, whole.17, whole.18, whole.19, whole.20, whole.21, whole.22, whole.23, whole.24, whole.25, whole.26, whole.27, whole.28, whole.29, whole.30]);
        }
        v
    }
}

impl ComponentBundle for (ComponentData, ComponentData, ComponentData, ComponentData, ComponentData, ComponentData, ComponentData, ComponentData, ComponentData, ComponentData, ComponentData, ComponentData, ComponentData, ComponentData, ComponentData, ComponentData, ComponentData, ComponentData, ComponentData, ComponentData, ComponentData, ComponentData, ComponentData, ComponentData, ComponentData, ComponentData, ComponentData, ComponentData, ComponentData, ComponentData, ComponentData, ComponentData) {
    open spec fn components(&self) -> Seq<ComponentData> {
        seq![self.0, self.1, self.2, self.3, self.4, self.5, self.6, self.7, self.8, self.9, self.10, self.11, self.12, self.13, self.14, self.15, self.16, self.17, self.18, self.19, self.20, self.21, self.22, self.23, self.24, self.25, self.26, self.27, self.28, self.29, self.30, self.31]
    }

    fn into_component_iter(self) -> (r: Vec<ComponentData>) {
        let ghost whole = self;
        let (t0, t1, t2, t3, t4, t5, t6, t7, t8, t9, t10, t11, t12, t13, t14, t15, t16, t17, t18, t19, t20, t21, t22, t23, t24, t25, t26, t27, t28, t29, t30, t31) = self;
        let mut v = Vec::new();
        v.push(t0);
        v.push(t1);
        v.push(t2);
        v.push(t3);
        v.push(t4);
        v.push(t5);
        v.push(t6);
        v.push(t7);
        v.push(t8);
        v.push(t9);
        v.push(t10);
        v.push(t11);
        v.push(t12);
        v.push(t13);
        v.push(t14);
        v.push(t15);
        v.push(t16);
        v.push(t17);
        v.push(t18);
        v.push(t19);
        v.push(t20);
        v.push(t21);
        v.push(t22);
        v.push(t23);
        v.push(t24);
        v.push(t25);
        v.push(t26);
        v.push(t27);
        v.push(t28);
        v.push(t29);
        v.push(t30);
        v.push(t31);
        proof {
            assert(v@ =~= seq![whole.0, whole.1, whole.2, whole.3, whole.4, whole.5, whole.6, whole.7, whole.8, whole.9, whole.10, whole.11, whole.12, whole.13, whole.14, whole.15, whole.16, whole.17, whole.18, whole.19, whole.20, whole.21, whole.22, whole.23, whole.24, whole.25, whole.26, whole.27, whole.28, whole.29, whole.30, whole.31]);
        }
        v
    }
}

} // verus!
